//! Yoga's integer codes and the enumerations they stand for.
use vstd::prelude::*;

verus! {

pub const YG_ALIGN_AUTO: i32 = 0;
pub const YG_ALIGN_FLEX_START: i32 = 1;
pub const YG_ALIGN_CENTER: i32 = 2;
pub const YG_ALIGN_FLEX_END: i32 = 3;
pub const YG_ALIGN_STRETCH: i32 = 4;
pub const YG_ALIGN_BASELINE: i32 = 5;
pub const YG_ALIGN_SPACE_BETWEEN: i32 = 6;
pub const YG_ALIGN_SPACE_AROUND: i32 = 7;
pub const YG_ALIGN_SPACE_EVENLY: i32 = 8;
pub const YG_ALIGN_START: i32 = 9;
pub const YG_ALIGN_END: i32 = 10;

/// Item alignment (`align-items`, `align-self`, `justify-items`, `justify-self`).
#[derive(Clone, Copy, Debug, PartialEq, Eq, Structural)]
pub enum AlignItems {
    Start,
    End,
    FlexStart,
    FlexEnd,
    Center,
    Baseline,
    Stretch,
}

/// The Yoga code of an item alignment.
pub open spec fn align_items_code(v: AlignItems) -> i32 {
    match v {
        AlignItems::Start => YG_ALIGN_START,
        AlignItems::End => YG_ALIGN_END,
        AlignItems::FlexStart => YG_ALIGN_FLEX_START,
        AlignItems::FlexEnd => YG_ALIGN_FLEX_END,
        AlignItems::Center => YG_ALIGN_CENTER,
        AlignItems::Baseline => YG_ALIGN_BASELINE,
        AlignItems::Stretch => YG_ALIGN_STRETCH,
    }
}

/// The item alignment whose code is `code`, if there is one.
pub open spec fn align_items_from_code(code: i32) -> Option<AlignItems> {
    if code == YG_ALIGN_FLEX_START {
        Some(AlignItems::FlexStart)
    } else if code == YG_ALIGN_CENTER {
        Some(AlignItems::Center)
    } else if code == YG_ALIGN_FLEX_END {
        Some(AlignItems::FlexEnd)
    } else if code == YG_ALIGN_STRETCH {
        Some(AlignItems::Stretch)
    } else if code == YG_ALIGN_BASELINE {
        Some(AlignItems::Baseline)
    } else if code == YG_ALIGN_START {
        Some(AlignItems::Start)
    } else if code == YG_ALIGN_END {
        Some(AlignItems::End)
    } else {
        None
    }
}

/// Decodes an item alignment: the alignment whose code is `align`, if there is one.
pub fn map_align(align: i32) -> (r: Option<AlignItems>)
    ensures
        r == align_items_from_code(align),
{
    match align {
        YG_ALIGN_FLEX_START => Some(AlignItems::FlexStart),
        YG_ALIGN_CENTER => Some(AlignItems::Center),
        YG_ALIGN_FLEX_END => Some(AlignItems::FlexEnd),
        YG_ALIGN_STRETCH => Some(AlignItems::Stretch),
        YG_ALIGN_BASELINE => Some(AlignItems::Baseline),
        YG_ALIGN_START => Some(AlignItems::Start),
        YG_ALIGN_END => Some(AlignItems::End),
        _ => None,
    }
}


/// Encodes an optional item alignment; an absent alignment is `auto` or
/// `stretch` according to `auto`.
pub fn unmap_align(value: Option<AlignItems>, auto: bool) -> (r: i32)
    ensures
        r == match value {
            None => if auto { YG_ALIGN_AUTO } else { YG_ALIGN_STRETCH },
            Some(v) => align_items_code(v),
        },
{
    match value {
        None => {
            if auto {
                YG_ALIGN_AUTO
            } else {
                YG_ALIGN_STRETCH
            }
        },
        Some(AlignItems::FlexStart) => YG_ALIGN_FLEX_START,
        Some(AlignItems::Center) => YG_ALIGN_CENTER,
        Some(AlignItems::FlexEnd) => YG_ALIGN_FLEX_END,
        Some(AlignItems::Stretch) => YG_ALIGN_STRETCH,
        Some(AlignItems::Baseline) => YG_ALIGN_BASELINE,
        Some(AlignItems::Start) => YG_ALIGN_START,
        Some(AlignItems::End) => YG_ALIGN_END,
    }
}

/// Content alignment (`align-content`, and `justify-content`, which takes the same values).
#[derive(Clone, Copy, Debug, PartialEq, Eq, Structural)]
pub enum AlignContent {
    Start,
    End,
    FlexStart,
    FlexEnd,
    Center,
    Stretch,
    SpaceBetween,
    SpaceEvenly,
    SpaceAround,
}

/// The Yoga code of a content alignment.
pub open spec fn align_content_code(v: AlignContent) -> i32 {
    match v {
        AlignContent::Start => YG_ALIGN_START,
        AlignContent::End => YG_ALIGN_END,
        AlignContent::FlexStart => YG_ALIGN_FLEX_START,
        AlignContent::FlexEnd => YG_ALIGN_FLEX_END,
        AlignContent::Center => YG_ALIGN_CENTER,
        AlignContent::Stretch => YG_ALIGN_STRETCH,
        AlignContent::SpaceBetween => YG_ALIGN_SPACE_BETWEEN,
        AlignContent::SpaceEvenly => YG_ALIGN_SPACE_EVENLY,
        AlignContent::SpaceAround => YG_ALIGN_SPACE_AROUND,
    }
}

/// The content alignment whose code is `code`, if there is one.
pub open spec fn align_content_from_code(code: i32) -> Option<AlignContent> {
    if code == YG_ALIGN_FLEX_START {
        Some(AlignContent::FlexStart)
    } else if code == YG_ALIGN_CENTER {
        Some(AlignContent::Center)
    } else if code == YG_ALIGN_FLEX_END {
        Some(AlignContent::FlexEnd)
    } else if code == YG_ALIGN_STRETCH {
        Some(AlignContent::Stretch)
    } else if code == YG_ALIGN_SPACE_BETWEEN {
        Some(AlignContent::SpaceBetween)
    } else if code == YG_ALIGN_SPACE_AROUND {
        Some(AlignContent::SpaceAround)
    } else if code == YG_ALIGN_SPACE_EVENLY {
        Some(AlignContent::SpaceEvenly)
    } else if code == YG_ALIGN_START {
        Some(AlignContent::Start)
    } else if code == YG_ALIGN_END {
        Some(AlignContent::End)
    } else {
        None
    }
}

/// Decodes a content alignment.
pub fn map_align_content(align: i32) -> (r: Option<AlignContent>)
    ensures
        r == align_content_from_code(align),
{
    match align {
        YG_ALIGN_FLEX_START => Some(AlignContent::FlexStart),
        YG_ALIGN_CENTER => Some(AlignContent::Center),
        YG_ALIGN_FLEX_END => Some(AlignContent::FlexEnd),
        YG_ALIGN_STRETCH => Some(AlignContent::Stretch),
        YG_ALIGN_SPACE_BETWEEN => Some(AlignContent::SpaceBetween),
        YG_ALIGN_SPACE_AROUND => Some(AlignContent::SpaceAround),
        YG_ALIGN_SPACE_EVENLY => Some(AlignContent::SpaceEvenly),
        YG_ALIGN_START => Some(AlignContent::Start),
        YG_ALIGN_END => Some(AlignContent::End),
        _ => None,
    }
}

/// Encodes an optional content alignment; an absent one is `auto` or `flex-start`.
pub fn unmap_align_content(value: Option<AlignContent>, auto: bool) -> (r: i32)
    ensures
        r == match value {
            None => if auto { YG_ALIGN_AUTO } else { YG_ALIGN_FLEX_START },
            Some(v) => align_content_code(v),
        },
{
    match value {
        None => {
            if auto {
                YG_ALIGN_AUTO
            } else {
                YG_ALIGN_FLEX_START
            }
        },
        Some(AlignContent::FlexStart) => YG_ALIGN_FLEX_START,
        Some(AlignContent::Center) => YG_ALIGN_CENTER,
        Some(AlignContent::FlexEnd) => YG_ALIGN_FLEX_END,
        Some(AlignContent::Stretch) => YG_ALIGN_STRETCH,
        Some(AlignContent::SpaceBetween) => YG_ALIGN_SPACE_BETWEEN,
        Some(AlignContent::SpaceAround) => YG_ALIGN_SPACE_AROUND,
        Some(AlignContent::SpaceEvenly) => YG_ALIGN_SPACE_EVENLY,
        Some(AlignContent::Start) => YG_ALIGN_START,
        Some(AlignContent::End) => YG_ALIGN_END,
    }
}

/// The mirror image of an item alignment under right-to-left direction:
/// start and end, and flex-start and flex-end, trade places.
pub open spec fn flipped_align_items(v: AlignItems) -> AlignItems {
    match v {
        AlignItems::Start => AlignItems::End,
        AlignItems::End => AlignItems::Start,
        AlignItems::FlexStart => AlignItems::FlexEnd,
        AlignItems::FlexEnd => AlignItems::FlexStart,
        _ => v,
    }
}

/// The mirror image of a content alignment under right-to-left direction.
pub open spec fn flipped_align_content(v: AlignContent) -> AlignContent {
    match v {
        AlignContent::Start => AlignContent::End,
        AlignContent::End => AlignContent::Start,
        AlignContent::FlexStart => AlignContent::FlexEnd,
        AlignContent::FlexEnd => AlignContent::FlexStart,
        _ => v,
    }
}

/// Mirrors an optional item alignment for right-to-left layout.
pub fn flip_align_items_for_rtl(value: Option<AlignItems>) -> (r: Option<AlignItems>)
    ensures
        r == match value {
            Some(v) => Some(flipped_align_items(v)),
            None => None::<AlignItems>,
        },
{
    match value {
        Some(v) => Some(
            match v {
                AlignItems::Start => AlignItems::End,
                AlignItems::End => AlignItems::Start,
                AlignItems::FlexStart => AlignItems::FlexEnd,
                AlignItems::FlexEnd => AlignItems::FlexStart,
                _ => v,
            },
        ),
        None => None,
    }
}

/// Mirrors an optional content alignment for right-to-left layout.
pub fn flip_align_content_for_rtl(value: Option<AlignContent>) -> (r: Option<AlignContent>)
    ensures
        r == match value {
            Some(v) => Some(flipped_align_content(v)),
            None => None::<AlignContent>,
        },
{
    match value {
        Some(v) => Some(
            match v {
                AlignContent::Start => AlignContent::End,
                AlignContent::End => AlignContent::Start,
                AlignContent::FlexStart => AlignContent::FlexEnd,
                AlignContent::FlexEnd => AlignContent::FlexStart,
                _ => v,
            },
        ),
        None => None,
    }
}

pub const YG_JUSTIFY_AUTO: i32 = 0;
pub const YG_JUSTIFY_FLEX_START: i32 = 1;
pub const YG_JUSTIFY_CENTER: i32 = 2;
pub const YG_JUSTIFY_FLEX_END: i32 = 3;
pub const YG_JUSTIFY_SPACE_BETWEEN: i32 = 4;
pub const YG_JUSTIFY_SPACE_AROUND: i32 = 5;
pub const YG_JUSTIFY_SPACE_EVENLY: i32 = 6;
pub const YG_JUSTIFY_STRETCH: i32 = 7;
pub const YG_JUSTIFY_START: i32 = 8;
pub const YG_JUSTIFY_END: i32 = 9;

/// The Yoga code of a `justify-content` value.
pub open spec fn justify_code(v: AlignContent) -> i32 {
    match v {
        AlignContent::Start => YG_JUSTIFY_START,
        AlignContent::End => YG_JUSTIFY_END,
        AlignContent::FlexStart => YG_JUSTIFY_FLEX_START,
        AlignContent::FlexEnd => YG_JUSTIFY_FLEX_END,
        AlignContent::Center => YG_JUSTIFY_CENTER,
        AlignContent::Stretch => YG_JUSTIFY_STRETCH,
        AlignContent::SpaceBetween => YG_JUSTIFY_SPACE_BETWEEN,
        AlignContent::SpaceEvenly => YG_JUSTIFY_SPACE_EVENLY,
        AlignContent::SpaceAround => YG_JUSTIFY_SPACE_AROUND,
    }
}

/// The `justify-content` value whose code is `code`, if there is one.
pub open spec fn justify_from_code(code: i32) -> Option<AlignContent> {
    if code == YG_JUSTIFY_FLEX_START {
        Some(AlignContent::FlexStart)
    } else if code == YG_JUSTIFY_CENTER {
        Some(AlignContent::Center)
    } else if code == YG_JUSTIFY_FLEX_END {
        Some(AlignContent::FlexEnd)
    } else if code == YG_JUSTIFY_SPACE_BETWEEN {
        Some(AlignContent::SpaceBetween)
    } else if code == YG_JUSTIFY_SPACE_AROUND {
        Some(AlignContent::SpaceAround)
    } else if code == YG_JUSTIFY_SPACE_EVENLY {
        Some(AlignContent::SpaceEvenly)
    } else if code == YG_JUSTIFY_STRETCH {
        Some(AlignContent::Stretch)
    } else if code == YG_JUSTIFY_START {
        Some(AlignContent::Start)
    } else if code == YG_JUSTIFY_END {
        Some(AlignContent::End)
    } else {
        None
    }
}

/// Decodes a `justify-content` value.
pub fn map_justify(justify: i32) -> (r: Option<AlignContent>)
    ensures
        r == justify_from_code(justify),
{
    match justify {
        YG_JUSTIFY_FLEX_START => Some(AlignContent::FlexStart),
        YG_JUSTIFY_CENTER => Some(AlignContent::Center),
        YG_JUSTIFY_FLEX_END => Some(AlignContent::FlexEnd),
        YG_JUSTIFY_SPACE_BETWEEN => Some(AlignContent::SpaceBetween),
        YG_JUSTIFY_SPACE_AROUND => Some(AlignContent::SpaceAround),
        YG_JUSTIFY_SPACE_EVENLY => Some(AlignContent::SpaceEvenly),
        YG_JUSTIFY_STRETCH => Some(AlignContent::Stretch),
        YG_JUSTIFY_START => Some(AlignContent::Start),
        YG_JUSTIFY_END => Some(AlignContent::End),
        _ => None,
    }
}

/// Encodes an optional `justify-content` value; an absent one is `auto` or `flex-start`.
pub fn unmap_justify(value: Option<AlignContent>, auto: bool) -> (r: i32)
    ensures
        r == match value {
            None => if auto { YG_JUSTIFY_AUTO } else { YG_JUSTIFY_FLEX_START },
            Some(v) => justify_code(v),
        },
{
    match value {
        None => {
            if auto {
                YG_JUSTIFY_AUTO
            } else {
                YG_JUSTIFY_FLEX_START
            }
        },
        Some(AlignContent::FlexStart) => YG_JUSTIFY_FLEX_START,
        Some(AlignContent::Center) => YG_JUSTIFY_CENTER,
        Some(AlignContent::FlexEnd) => YG_JUSTIFY_FLEX_END,
        Some(AlignContent::SpaceBetween) => YG_JUSTIFY_SPACE_BETWEEN,
        Some(AlignContent::SpaceAround) => YG_JUSTIFY_SPACE_AROUND,
        Some(AlignContent::SpaceEvenly) => YG_JUSTIFY_SPACE_EVENLY,
        Some(AlignContent::Stretch) => YG_JUSTIFY_STRETCH,
        Some(AlignContent::Start) => YG_JUSTIFY_START,
        Some(AlignContent::End) => YG_JUSTIFY_END,
    }
}

pub const YG_FLEX_DIRECTION_COLUMN: i32 = 0;
pub const YG_FLEX_DIRECTION_COLUMN_REVERSE: i32 = 1;
pub const YG_FLEX_DIRECTION_ROW: i32 = 2;
pub const YG_FLEX_DIRECTION_ROW_REVERSE: i32 = 3;

/// The main axis of a flex container.
#[derive(Clone, Copy, Debug, PartialEq, Eq, Structural)]
pub enum FlexDirection {
    Row,
    Column,
    RowReverse,
    ColumnReverse,
}

/// The Yoga code of a flex direction.
pub open spec fn flex_direction_code(v: FlexDirection) -> i32 {
    match v {
        FlexDirection::Column => YG_FLEX_DIRECTION_COLUMN,
        FlexDirection::ColumnReverse => YG_FLEX_DIRECTION_COLUMN_REVERSE,
        FlexDirection::Row => YG_FLEX_DIRECTION_ROW,
        FlexDirection::RowReverse => YG_FLEX_DIRECTION_ROW_REVERSE,
    }
}

/// The flex direction whose code is `code`; a code that names none is `row`.
pub open spec fn flex_direction_from_code(code: i32) -> FlexDirection {
    if code == YG_FLEX_DIRECTION_COLUMN {
        FlexDirection::Column
    } else if code == YG_FLEX_DIRECTION_COLUMN_REVERSE {
        FlexDirection::ColumnReverse
    } else if code == YG_FLEX_DIRECTION_ROW_REVERSE {
        FlexDirection::RowReverse
    } else {
        FlexDirection::Row
    }
}

/// Decodes a flex direction; a code that names none is `row`.
pub fn map_flex_direction(value: i32) -> (r: FlexDirection)
    ensures
        r == flex_direction_from_code(value),
{
    match value {
        YG_FLEX_DIRECTION_COLUMN => FlexDirection::Column,
        YG_FLEX_DIRECTION_COLUMN_REVERSE => FlexDirection::ColumnReverse,
        YG_FLEX_DIRECTION_ROW_REVERSE => FlexDirection::RowReverse,
        _ => FlexDirection::Row,
    }
}

/// Encodes a flex direction.
pub fn unmap_flex_direction(value: FlexDirection) -> (r: i32)
    ensures
        r == flex_direction_code(value),
{
    match value {
        FlexDirection::Column => YG_FLEX_DIRECTION_COLUMN,
        FlexDirection::ColumnReverse => YG_FLEX_DIRECTION_COLUMN_REVERSE,
        FlexDirection::Row => YG_FLEX_DIRECTION_ROW,
        FlexDirection::RowReverse => YG_FLEX_DIRECTION_ROW_REVERSE,
    }
}

pub const YG_WRAP_NO_WRAP: i32 = 0;
pub const YG_WRAP_WRAP: i32 = 1;
pub const YG_WRAP_WRAP_REVERSE: i32 = 2;

/// Whether flex items wrap onto several lines.
#[derive(Clone, Copy, Debug, PartialEq, Eq, Structural)]
pub enum FlexWrap {
    NoWrap,
    Wrap,
    WrapReverse,
}

/// The Yoga code of a wrap mode.
pub open spec fn wrap_code(v: FlexWrap) -> i32 {
    match v {
        FlexWrap::NoWrap => YG_WRAP_NO_WRAP,
        FlexWrap::Wrap => YG_WRAP_WRAP,
        FlexWrap::WrapReverse => YG_WRAP_WRAP_REVERSE,
    }
}

/// The wrap mode whose code is `code`; a code that names none is `no-wrap`.
pub open spec fn wrap_from_code(code: i32) -> FlexWrap {
    if code == YG_WRAP_WRAP {
        FlexWrap::Wrap
    } else if code == YG_WRAP_WRAP_REVERSE {
        FlexWrap::WrapReverse
    } else {
        FlexWrap::NoWrap
    }
}

/// Decodes a wrap mode; a code that names none is `no-wrap`.
pub fn map_wrap(value: i32) -> (r: FlexWrap)
    ensures
        r == wrap_from_code(value),
{
    match value {
        YG_WRAP_WRAP => FlexWrap::Wrap,
        YG_WRAP_WRAP_REVERSE => FlexWrap::WrapReverse,
        _ => FlexWrap::NoWrap,
    }
}

/// Encodes a wrap mode.
pub fn unmap_wrap(value: FlexWrap) -> (r: i32)
    ensures
        r == wrap_code(value),
{
    match value {
        FlexWrap::NoWrap => YG_WRAP_NO_WRAP,
        FlexWrap::Wrap => YG_WRAP_WRAP,
        FlexWrap::WrapReverse => YG_WRAP_WRAP_REVERSE,
    }
}

pub const YG_POSITION_TYPE_STATIC: i32 = 0;
pub const YG_POSITION_TYPE_RELATIVE: i32 = 1;
pub const YG_POSITION_TYPE_ABSOLUTE: i32 = 2;

/// The positioning scheme handed to the layout engine.
#[derive(Clone, Copy, Debug, PartialEq, Eq, Structural)]
pub enum Position {
    Relative,
    Absolute,
}

/// Decodes a position type: `absolute` is absolute, every other code relative.
pub fn map_position_type(value: i32) -> (r: Position)
    ensures
        r == (if value == YG_POSITION_TYPE_ABSOLUTE { Position::Absolute } else { Position::Relative }),
{
    match value {
        YG_POSITION_TYPE_ABSOLUTE => Position::Absolute,
        _ => Position::Relative,
    }
}

/// Encodes a positioning scheme.
pub fn unmap_position_type(value: Position) -> (r: i32)
    ensures
        r == (match value {
            Position::Absolute => YG_POSITION_TYPE_ABSOLUTE,
            Position::Relative => YG_POSITION_TYPE_RELATIVE,
        }),
{
    match value {
        Position::Absolute => YG_POSITION_TYPE_ABSOLUTE,
        Position::Relative => YG_POSITION_TYPE_RELATIVE,
    }
}

pub const YG_DISPLAY_FLEX: i32 = 0;
pub const YG_DISPLAY_NONE: i32 = 1;
pub const YG_DISPLAY_CONTENTS: i32 = 2;
pub const YG_DISPLAY_GRID: i32 = 3;

/// The display mode handed to the layout engine; `Off` is `display: none`.
#[derive(Clone, Copy, Debug, PartialEq, Eq, Structural)]
pub enum Display {
    Block,
    Flex,
    Grid,
    Off,
}

/// Decodes a display code: `none` and `grid` are themselves, every other code is flex.
pub fn map_display(value: i32) -> (r: Display)
    ensures
        r == (if value == YG_DISPLAY_NONE {
            Display::Off
        } else if value == YG_DISPLAY_GRID {
            Display::Grid
        } else {
            Display::Flex
        }),
{
    match value {
        YG_DISPLAY_NONE => Display::Off,
        YG_DISPLAY_GRID => Display::Grid,
        _ => Display::Flex,
    }
}

/// Encodes a display mode; block layout has no Yoga code of its own and reads as flex.
pub fn unmap_display(value: Display) -> (r: i32)
    ensures
        r == (match value {
            Display::Off => YG_DISPLAY_NONE,
            Display::Grid => YG_DISPLAY_GRID,
            _ => YG_DISPLAY_FLEX,
        }),
{
    match value {
        Display::Off => YG_DISPLAY_NONE,
        Display::Grid => YG_DISPLAY_GRID,
        Display::Flex => YG_DISPLAY_FLEX,
        Display::Block => YG_DISPLAY_FLEX,
    }
}

pub const YG_OVERFLOW_VISIBLE: i32 = 0;
pub const YG_OVERFLOW_HIDDEN: i32 = 1;
pub const YG_OVERFLOW_SCROLL: i32 = 2;

/// Overflow behaviour on one axis.
#[derive(Clone, Copy, Debug, PartialEq, Eq, Structural)]
pub enum Overflow {
    Visible,
    Clip,
    Hidden,
    Scroll,
}

/// Decodes an overflow code; a code that names none is `visible`.
pub fn map_overflow(value: i32) -> (r: Overflow)
    ensures
        r == (if value == YG_OVERFLOW_HIDDEN {
            Overflow::Hidden
        } else if value == YG_OVERFLOW_SCROLL {
            Overflow::Scroll
        } else {
            Overflow::Visible
        }),
{
    match value {
        YG_OVERFLOW_HIDDEN => Overflow::Hidden,
        YG_OVERFLOW_SCROLL => Overflow::Scroll,
        _ => Overflow::Visible,
    }
}

/// Encodes an overflow mode; `clip` has no Yoga code and reads as `visible`.
pub fn unmap_overflow(value: Overflow) -> (r: i32)
    ensures
        r == (match value {
            Overflow::Hidden => YG_OVERFLOW_HIDDEN,
            Overflow::Scroll => YG_OVERFLOW_SCROLL,
            _ => YG_OVERFLOW_VISIBLE,
        }),
{
    match value {
        Overflow::Hidden => YG_OVERFLOW_HIDDEN,
        Overflow::Scroll => YG_OVERFLOW_SCROLL,
        Overflow::Visible => YG_OVERFLOW_VISIBLE,
        Overflow::Clip => YG_OVERFLOW_VISIBLE,
    }
}

pub const YG_BOX_SIZING_BORDER_BOX: i32 = 0;
pub const YG_BOX_SIZING_CONTENT_BOX: i32 = 1;

/// Whether sizes include padding and border.
#[derive(Clone, Copy, Debug, PartialEq, Eq, Structural)]
pub enum BoxSizing {
    BorderBox,
    ContentBox,
}

/// Decodes a box sizing code: `content-box` is itself, every other code `border-box`.
pub fn map_box_sizing(value: i32) -> (r: BoxSizing)
    ensures
        r == (if value == YG_BOX_SIZING_CONTENT_BOX { BoxSizing::ContentBox } else { BoxSizing::BorderBox }),
{
    if value == YG_BOX_SIZING_CONTENT_BOX {
        BoxSizing::ContentBox
    } else {
        BoxSizing::BorderBox
    }
}

/// Encodes a box sizing mode.
pub fn unmap_box_sizing(value: BoxSizing) -> (r: i32)
    ensures
        r == (match value {
            BoxSizing::BorderBox => YG_BOX_SIZING_BORDER_BOX,
            BoxSizing::ContentBox => YG_BOX_SIZING_CONTENT_BOX,
        }),
{
    match value {
        BoxSizing::BorderBox => YG_BOX_SIZING_BORDER_BOX,
        BoxSizing::ContentBox => YG_BOX_SIZING_CONTENT_BOX,
    }
}

pub const YG_DIRECTION_INHERIT: i32 = 0;
pub const YG_DIRECTION_LTR: i32 = 1;
pub const YG_DIRECTION_RTL: i32 = 2;

pub const YG_EDGE_LEFT: i32 = 0;
pub const YG_EDGE_TOP: i32 = 1;
pub const YG_EDGE_RIGHT: i32 = 2;
pub const YG_EDGE_BOTTOM: i32 = 3;
pub const YG_EDGE_START: i32 = 4;
pub const YG_EDGE_END: i32 = 5;
pub const YG_EDGE_HORIZONTAL: i32 = 6;
pub const YG_EDGE_VERTICAL: i32 = 7;
pub const YG_EDGE_ALL: i32 = 8;

pub const YG_GUTTER_COLUMN: i32 = 0;
pub const YG_GUTTER_ROW: i32 = 1;
pub const YG_GUTTER_ALL: i32 = 2;

pub const YG_MEASURE_MODE_UNDEFINED: i32 = 0;
pub const YG_MEASURE_MODE_EXACTLY: i32 = 1;
pub const YG_MEASURE_MODE_AT_MOST: i32 = 2;

pub const YG_NODE_TYPE_DEFAULT: i32 = 0;
pub const YG_NODE_TYPE_TEXT: i32 = 1;

pub const YG_UNIT_UNDEFINED: i32 = 0;
pub const YG_UNIT_POINT: i32 = 1;
pub const YG_UNIT_PERCENT: i32 = 2;
pub const YG_UNIT_AUTO: i32 = 3;
pub const YG_UNIT_MAX_CONTENT: i32 = 4;
pub const YG_UNIT_FIT_CONTENT: i32 = 5;
pub const YG_UNIT_STRETCH: i32 = 6;

pub const YG_ERRATA_STRETCH_FLEX_BASIS: i32 = 1;

/// Decoding the code of an alignment gives the alignment back, and a code
/// that decodes to an alignment is that alignment's code.
pub proof fn lemma_align_codes_round_trip(a: AlignItems, c: AlignContent, code: i32)
    ensures
        align_items_from_code(align_items_code(a)) == Some(a),
        align_content_from_code(align_content_code(c)) == Some(c),
        justify_from_code(justify_code(c)) == Some(c),
        align_items_from_code(code) matches Some(v) ==> align_items_code(v) == code,
        align_content_from_code(code) matches Some(v) ==> align_content_code(v) == code,
        justify_from_code(code) matches Some(v) ==> justify_code(v) == code,
{
}

/// Decoding the code of a flex direction or a wrap mode gives it back, and
/// every code from 0 to 3 (directions) or 0 to 2 (wrap modes) is the code of
/// what it decodes to.
pub proof fn lemma_flex_codes_round_trip(d: FlexDirection, w: FlexWrap, code: i32)
    ensures
        flex_direction_from_code(flex_direction_code(d)) == d,
        wrap_from_code(wrap_code(w)) == w,
        0 <= code <= 3 ==> flex_direction_code(flex_direction_from_code(code)) == code,
        0 <= code <= 2 ==> wrap_code(wrap_from_code(code)) == code,
{
}

/// Mirroring an alignment twice gives it back.
pub proof fn lemma_flip_involutive(a: AlignItems, c: AlignContent)
    ensures
        flipped_align_items(flipped_align_items(a)) == a,
        flipped_align_content(flipped_align_content(c)) == c,
{
}

} // verus!
