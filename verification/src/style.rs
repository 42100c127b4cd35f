//! The sparse style descriptor attached to every scene node.
//!
//! Every field is optional: an absent field means "inherit the solver's
//! default", never zero. Lengths are whole pixels; percentages and aspect
//! ratios are carried in thousandths, so `Percent(500)` is one half of the
//! parent extent and an aspect ratio of `1500` is 3:2.

use vstd::prelude::*;

verus! {

/// One length constraint handed to the constraint solver.
///
/// `Points` is a whole number of pixels; `Percent` is thousandths of the
/// parent extent.
#[derive(Clone, Copy, Debug, PartialEq, Eq)]
pub enum Dimension {
    Undefined,
    Auto,
    Points(u32),
    Percent(u32),
}

/// A width/height pair of length constraints.
#[derive(Clone, Copy, Debug, PartialEq, Eq)]
pub struct DimSize {
    pub width: Dimension,
    pub height: Dimension,
}

/// Per-edge length constraints (margin, padding, border, position).
#[derive(Clone, Copy, Debug, PartialEq, Eq)]
pub struct DimRect {
    pub start: Dimension,
    pub end: Dimension,
    pub top: Dimension,
    pub bottom: Dimension,
}

/// Whether a node takes part in flex layout at all.
///
/// `Hidden` removes the node from layout, like CSS `display: none`.
#[derive(Clone, Copy, Debug, PartialEq, Eq)]
pub enum Display {
    Flex,
    Hidden,
}

#[derive(Clone, Copy, Debug, PartialEq, Eq)]
pub enum PositionType {
    Relative,
    Absolute,
}

#[derive(Clone, Copy, Debug, PartialEq, Eq)]
pub enum Direction {
    Inherit,
    LTR,
    RTL,
}

#[derive(Clone, Copy, Debug, PartialEq, Eq)]
pub enum FlexDirection {
    Row,
    Column,
    RowReverse,
    ColumnReverse,
}

#[derive(Clone, Copy, Debug, PartialEq, Eq)]
pub enum FlexWrap {
    NoWrap,
    Wrap,
    WrapReverse,
}

#[derive(Clone, Copy, Debug, PartialEq, Eq)]
pub enum Overflow {
    Visible,
    Hidden,
    Scroll,
}

#[derive(Clone, Copy, Debug, PartialEq, Eq)]
pub enum AlignItems {
    FlexStart,
    FlexEnd,
    Center,
    Baseline,
    Stretch,
}

#[derive(Clone, Copy, Debug, PartialEq, Eq)]
pub enum AlignSelf {
    Auto,
    FlexStart,
    FlexEnd,
    Center,
    Baseline,
    Stretch,
}

#[derive(Clone, Copy, Debug, PartialEq, Eq)]
pub enum AlignContent {
    FlexStart,
    FlexEnd,
    Center,
    Stretch,
    SpaceBetween,
    SpaceAround,
}

#[derive(Clone, Copy, Debug, PartialEq, Eq)]
pub enum JustifyContent {
    FlexStart,
    FlexEnd,
    Center,
    SpaceBetween,
    SpaceAround,
    SpaceEvenly,
}

/// The sparse set of layout properties of one scene node.
///
/// `flex_grow` and `flex_shrink` are whole flex units; `aspect_ratio` is
/// width over height in thousandths.
#[derive(Clone, Copy, Debug, PartialEq, Eq)]
pub struct Style {
    pub display: Option<Display>,
    pub position_type: Option<PositionType>,
    pub direction: Option<Direction>,
    pub flex_direction: Option<FlexDirection>,
    pub flex_wrap: Option<FlexWrap>,
    pub overflow: Option<Overflow>,
    pub align_items: Option<AlignItems>,
    pub align_self: Option<AlignSelf>,
    pub align_content: Option<AlignContent>,
    pub justify_content: Option<JustifyContent>,
    pub position: Option<DimRect>,
    pub margin: Option<DimRect>,
    pub padding: Option<DimRect>,
    pub border: Option<DimRect>,
    pub flex_grow: Option<u32>,
    pub flex_shrink: Option<u32>,
    pub flex_basis: Option<Dimension>,
    pub size: Option<DimSize>,
    pub min_size: Option<DimSize>,
    pub max_size: Option<DimSize>,
    pub aspect_ratio: Option<u32>,
}

/// The style with every property absent: the solver's defaults throughout.
pub open spec fn empty_style() -> Style {
    Style {
        display: None,
        position_type: None,
        direction: None,
        flex_direction: None,
        flex_wrap: None,
        overflow: None,
        align_items: None,
        align_self: None,
        align_content: None,
        justify_content: None,
        position: None,
        margin: None,
        padding: None,
        border: None,
        flex_grow: None,
        flex_shrink: None,
        flex_basis: None,
        size: None,
        min_size: None,
        max_size: None,
        aspect_ratio: None,
    }
}

impl Default for Style {
    /// Every property absent: the solver's defaults throughout.
    fn default() -> (s: Style)
        ensures
            s == empty_style(),
    {
        Style {
            display: None,
            position_type: None,
            direction: None,
            flex_direction: None,
            flex_wrap: None,
            overflow: None,
            align_items: None,
            align_self: None,
            align_content: None,
            justify_content: None,
            position: None,
            margin: None,
            padding: None,
            border: None,
            flex_grow: None,
            flex_shrink: None,
            flex_basis: None,
            size: None,
            min_size: None,
            max_size: None,
            aspect_ratio: None,
        }
    }
}

} // verus!
