//! The sixteen margin boxes of a page.

use crate::text::lower;
use vstd::prelude::*;

verus! {

/// Where a margin box is.
#[derive(Debug, Clone, Copy, PartialEq, Eq, Structural)]
pub enum MarginBoxPosition {
    TopLeftCorner,
    TopLeft,
    TopCenter,
    TopRight,
    TopRightCorner,
    RightTop,
    RightMiddle,
    RightBottom,
    BottomRightCorner,
    BottomRight,
    BottomCenter,
    BottomLeft,
    BottomLeftCorner,
    LeftBottom,
    LeftMiddle,
    LeftTop,
}

/// The margin box that an at-keyword names, in any case of its letters.
pub open spec fn box_named(name: Seq<char>) -> Option<MarginBoxPosition> {
    let n = lower(name);
    if n == "top-left-corner"@ {
        Some(MarginBoxPosition::TopLeftCorner)
    } else if n == "top-left"@ {
        Some(MarginBoxPosition::TopLeft)
    } else if n == "top-center"@ {
        Some(MarginBoxPosition::TopCenter)
    } else if n == "top-right"@ {
        Some(MarginBoxPosition::TopRight)
    } else if n == "top-right-corner"@ {
        Some(MarginBoxPosition::TopRightCorner)
    } else if n == "right-top"@ {
        Some(MarginBoxPosition::RightTop)
    } else if n == "right-middle"@ {
        Some(MarginBoxPosition::RightMiddle)
    } else if n == "right-bottom"@ {
        Some(MarginBoxPosition::RightBottom)
    } else if n == "bottom-right-corner"@ {
        Some(MarginBoxPosition::BottomRightCorner)
    } else if n == "bottom-right"@ {
        Some(MarginBoxPosition::BottomRight)
    } else if n == "bottom-center"@ {
        Some(MarginBoxPosition::BottomCenter)
    } else if n == "bottom-left"@ {
        Some(MarginBoxPosition::BottomLeft)
    } else if n == "bottom-left-corner"@ {
        Some(MarginBoxPosition::BottomLeftCorner)
    } else if n == "left-bottom"@ {
        Some(MarginBoxPosition::LeftBottom)
    } else if n == "left-middle"@ {
        Some(MarginBoxPosition::LeftMiddle)
    } else if n == "left-top"@ {
        Some(MarginBoxPosition::LeftTop)
    } else {
        None
    }
}

impl MarginBoxPosition {
    /// The margin box that an at-keyword names.
    pub fn from_at_keyword(name: &str) -> (p: Option<MarginBoxPosition>)
        ensures
            p == box_named(name@),
    {
        let lowered = name.to_ascii_lowercase();
        let n = lowered.as_str();
        if *n == *"top-left-corner" {
            Some(MarginBoxPosition::TopLeftCorner)
        } else if *n == *"top-left" {
            Some(MarginBoxPosition::TopLeft)
        } else if *n == *"top-center" {
            Some(MarginBoxPosition::TopCenter)
        } else if *n == *"top-right" {
            Some(MarginBoxPosition::TopRight)
        } else if *n == *"top-right-corner" {
            Some(MarginBoxPosition::TopRightCorner)
        } else if *n == *"right-top" {
            Some(MarginBoxPosition::RightTop)
        } else if *n == *"right-middle" {
            Some(MarginBoxPosition::RightMiddle)
        } else if *n == *"right-bottom" {
            Some(MarginBoxPosition::RightBottom)
        } else if *n == *"bottom-right-corner" {
            Some(MarginBoxPosition::BottomRightCorner)
        } else if *n == *"bottom-right" {
            Some(MarginBoxPosition::BottomRight)
        } else if *n == *"bottom-center" {
            Some(MarginBoxPosition::BottomCenter)
        } else if *n == *"bottom-left" {
            Some(MarginBoxPosition::BottomLeft)
        } else if *n == *"bottom-left-corner" {
            Some(MarginBoxPosition::BottomLeftCorner)
        } else if *n == *"left-bottom" {
            Some(MarginBoxPosition::LeftBottom)
        } else if *n == *"left-middle" {
            Some(MarginBoxPosition::LeftMiddle)
        } else if *n == *"left-top" {
            Some(MarginBoxPosition::LeftTop)
        } else {
            None
        }
    }
}

} // verus!
