//! Horizontal and vertical alignment strategies.
//!
//! Each strategy is a small stateless value stored in the style. The unit
//! marker types ([`LeftAligned`] and its siblings) give the builder a typed
//! vocabulary; internally everything is carried by the two enums.

use vstd::prelude::*;

verus! {

/// Horizontal placement of each row inside the box.
#[derive(Clone, Copy, Debug, PartialEq, Eq, Structural)]
pub enum HorizontalAlignment {
    /// Rows start at the left edge; leading and trailing spaces are kept.
    Left,
    /// Rows end at the right edge; edge spaces are stripped.
    Right,
    /// Rows are centered, shifted by half the slack; edge spaces are
    /// stripped.
    Center,
    /// Inter-word spaces are widened so the row spans the full width; the
    /// last row of a paragraph stays left-aligned.
    Justified,
}

/// Vertical placement of the whole text block inside the box.
#[derive(Clone, Copy, Debug, PartialEq, Eq, Structural)]
pub enum VerticalAlignment {
    /// The first row starts at the top edge.
    Top,
    /// The block is centered, shifted by half the slack (rounded down).
    Center,
    /// The last row ends at the bottom edge.
    Bottom,
}

/// A marker value that selects a horizontal alignment strategy.
pub trait HorizontalTextAlignment {
    /// The strategy this marker stands for.
    spec fn strategy_spec(&self) -> HorizontalAlignment;

    /// Returns the strategy this marker stands for.
    fn strategy(&self) -> (a: HorizontalAlignment)
        ensures
            a == self.strategy_spec(),
    ;
}

/// A marker value that selects a vertical alignment strategy.
pub trait VerticalTextAlignment {
    /// The strategy this marker stands for.
    spec fn vertical_spec(&self) -> VerticalAlignment;

    /// Returns the strategy this marker stands for.
    fn vertical(&self) -> (a: VerticalAlignment)
        ensures
            a == self.vertical_spec(),
    ;
}

/// Marks text to be rendered left aligned.
#[derive(Clone, Copy, Debug)]
pub struct LeftAligned;

/// Marks text to be rendered right aligned.
#[derive(Clone, Copy, Debug)]
pub struct RightAligned;

/// Marks text to be rendered center aligned.
#[derive(Clone, Copy, Debug)]
pub struct CenterAligned;

/// Marks text to be rendered justified.
#[derive(Clone, Copy, Debug)]
pub struct Justified;

impl HorizontalTextAlignment for LeftAligned {
    open spec fn strategy_spec(&self) -> HorizontalAlignment {
        HorizontalAlignment::Left
    }

    fn strategy(&self) -> (a: HorizontalAlignment) {
        HorizontalAlignment::Left
    }
}

impl HorizontalTextAlignment for RightAligned {
    open spec fn strategy_spec(&self) -> HorizontalAlignment {
        HorizontalAlignment::Right
    }

    fn strategy(&self) -> (a: HorizontalAlignment) {
        HorizontalAlignment::Right
    }
}

impl HorizontalTextAlignment for CenterAligned {
    open spec fn strategy_spec(&self) -> HorizontalAlignment {
        HorizontalAlignment::Center
    }

    fn strategy(&self) -> (a: HorizontalAlignment) {
        HorizontalAlignment::Center
    }
}

impl HorizontalTextAlignment for Justified {
    open spec fn strategy_spec(&self) -> HorizontalAlignment {
        HorizontalAlignment::Justified
    }

    fn strategy(&self) -> (a: HorizontalAlignment) {
        HorizontalAlignment::Justified
    }
}

/// Marks text to be rendered at the top of the box.
#[derive(Clone, Copy, Debug)]
pub struct TopAligned;

/// Marks text to be rendered vertically centered.
#[derive(Clone, Copy, Debug)]
pub struct VerticalCenterAligned;

/// Marks text to be rendered at the bottom of the box.
#[derive(Clone, Copy, Debug)]
pub struct BottomAligned;

impl VerticalTextAlignment for TopAligned {
    open spec fn vertical_spec(&self) -> VerticalAlignment {
        VerticalAlignment::Top
    }

    fn vertical(&self) -> (a: VerticalAlignment) {
        VerticalAlignment::Top
    }
}

impl VerticalTextAlignment for VerticalCenterAligned {
    open spec fn vertical_spec(&self) -> VerticalAlignment {
        VerticalAlignment::Center
    }

    fn vertical(&self) -> (a: VerticalAlignment) {
        VerticalAlignment::Center
    }
}

impl VerticalTextAlignment for BottomAligned {
    open spec fn vertical_spec(&self) -> VerticalAlignment {
        VerticalAlignment::Bottom
    }

    fn vertical(&self) -> (a: VerticalAlignment) {
        VerticalAlignment::Bottom
    }
}

} // verus!
