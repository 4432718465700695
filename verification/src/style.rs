//! The style of a node, as the layout engine is given it.
use vstd::prelude::*;
use crate::codes::{AlignContent, AlignItems, BoxSizing, Display, FlexDirection, FlexWrap, Overflow, Position};
use crate::edges::SizePair;
use crate::values::{Length, Placement, ONE_BITS, ZERO_BITS};

verus! {

/// A node's style: every style property that the library sets or reads.
#[derive(Clone, Copy)]
pub struct NodeStyle {
    pub display: Display,
    pub position: Position,
    pub overflow_x: Overflow,
    pub overflow_y: Overflow,
    pub box_sizing: BoxSizing,
    pub flex_direction: FlexDirection,
    pub flex_wrap: FlexWrap,
    pub justify_content: Option<AlignContent>,
    pub align_content: Option<AlignContent>,
    pub align_items: Option<AlignItems>,
    pub align_self: Option<AlignItems>,
    pub justify_items: Option<AlignItems>,
    pub justify_self: Option<AlignItems>,
    /// `flex-grow`, as a bit pattern.
    pub flex_grow: u32,
    /// `flex-shrink`, as a bit pattern.
    pub flex_shrink: u32,
    pub flex_basis: Length,
    pub size: SizePair,
    pub min_size: SizePair,
    pub max_size: SizePair,
    /// The aspect ratio, as a bit pattern, when one is set.
    pub aspect_ratio: Option<u32>,
    /// The column gap (`width`) and the row gap (`height`).
    pub gap: SizePair,
    pub grid_row_start: Placement,
    pub grid_row_end: Placement,
    pub grid_column_start: Placement,
    pub grid_column_end: Placement,
}

/// The layout engine's default style: flex display, relative position,
/// visible overflow, border-box sizing, row direction without wrapping, no
/// alignment set, grow 0 and shrink 1 with an automatic basis, automatic sizes,
/// no aspect ratio, zero gaps and automatic grid placement.
pub open spec fn engine_default_style() -> NodeStyle {
    NodeStyle {
        display: Display::Flex,
        position: Position::Relative,
        overflow_x: Overflow::Visible,
        overflow_y: Overflow::Visible,
        box_sizing: BoxSizing::BorderBox,
        flex_direction: FlexDirection::Row,
        flex_wrap: FlexWrap::NoWrap,
        justify_content: None,
        align_content: None,
        align_items: None,
        align_self: None,
        justify_items: None,
        justify_self: None,
        flex_grow: ZERO_BITS,
        flex_shrink: ONE_BITS,
        flex_basis: Length::Auto,
        size: SizePair { width: Length::Auto, height: Length::Auto },
        min_size: SizePair { width: Length::Auto, height: Length::Auto },
        max_size: SizePair { width: Length::Auto, height: Length::Auto },
        aspect_ratio: None,
        gap: SizePair { width: Length::Points(ZERO_BITS), height: Length::Points(ZERO_BITS) },
        grid_row_start: Placement::Auto,
        grid_row_end: Placement::Auto,
        grid_column_start: Placement::Auto,
        grid_column_end: Placement::Auto,
    }
}

/// A new node's style: the engine default with web defaults, and otherwise
/// Yoga's own defaults of column direction, `flex-start` content alignment
/// and no shrinking.
pub open spec fn default_style_spec(use_web_defaults: bool) -> NodeStyle {
    if use_web_defaults {
        engine_default_style()
    } else {
        NodeStyle {
            flex_direction: FlexDirection::Column,
            align_content: Some(AlignContent::FlexStart),
            flex_shrink: ZERO_BITS,
            ..engine_default_style()
        }
    }
}

/// The layout engine's default style.
pub fn engine_default() -> (r: NodeStyle)
    ensures
        r == engine_default_style(),
{
    NodeStyle {
        display: Display::Flex,
        position: Position::Relative,
        overflow_x: Overflow::Visible,
        overflow_y: Overflow::Visible,
        box_sizing: BoxSizing::BorderBox,
        flex_direction: FlexDirection::Row,
        flex_wrap: FlexWrap::NoWrap,
        justify_content: None,
        align_content: None,
        align_items: None,
        align_self: None,
        justify_items: None,
        justify_self: None,
        flex_grow: ZERO_BITS,
        flex_shrink: ONE_BITS,
        flex_basis: Length::Auto,
        size: SizePair { width: Length::Auto, height: Length::Auto },
        min_size: SizePair { width: Length::Auto, height: Length::Auto },
        max_size: SizePair { width: Length::Auto, height: Length::Auto },
        aspect_ratio: None,
        gap: SizePair { width: Length::Points(ZERO_BITS), height: Length::Points(ZERO_BITS) },
        grid_row_start: Placement::Auto,
        grid_row_end: Placement::Auto,
        grid_column_start: Placement::Auto,
        grid_column_end: Placement::Auto,
    }
}

/// The style of a new node.
pub fn default_style(use_web_defaults: bool) -> (r: NodeStyle)
    ensures
        r == default_style_spec(use_web_defaults),
{
    let mut style = engine_default();
    if !use_web_defaults {
        style.flex_direction = FlexDirection::Column;
        style.align_content = Some(AlignContent::FlexStart);
        style.flex_shrink = ZERO_BITS;
    }
    style
}

} // verus!
