//! Setting and reading a node's style and flags (Yoga's `YGNodeStyleSet*`,
//! `YGNodeStyleGet*` and `YGNodeSet*` functions). Every style setter marks
//! the node's chain dirty and returns the dirtied callbacks to call.
use vstd::prelude::*;
use crate::codes::{
    align_content_code, align_content_from_code, align_items_code, align_items_from_code, flex_direction_code,
    flex_direction_from_code, justify_code, justify_from_code, map_align, map_align_content, map_box_sizing,
    map_display, map_flex_direction, map_justify, map_overflow, map_position_type, map_wrap, unmap_align,
    unmap_align_content, unmap_box_sizing, unmap_flex_direction, unmap_justify, unmap_overflow, unmap_wrap,
    wrap_code, wrap_from_code, BoxSizing, Display, Overflow, Position, YG_ALIGN_AUTO, YG_ALIGN_FLEX_START,
    YG_ALIGN_STRETCH, YG_BOX_SIZING_BORDER_BOX, YG_BOX_SIZING_CONTENT_BOX, YG_DISPLAY_GRID, YG_DISPLAY_NONE,
    YG_GUTTER_COLUMN, YG_GUTTER_ROW, YG_JUSTIFY_FLEX_START, YG_NODE_TYPE_DEFAULT, YG_NODE_TYPE_TEXT,
    YG_OVERFLOW_HIDDEN, YG_OVERFLOW_SCROLL, YG_OVERFLOW_VISIBLE, YG_POSITION_TYPE_ABSOLUTE,
};
use crate::edges::{edges_with, EdgeValues};
use crate::style::NodeStyle;
use crate::tree::{restyled_to, with_data, GridTemplates, NodeData, NodeTree, TreeView};
use crate::values::{
    compact_to_yg_value, copy_vec, f32_bits_is_nan, is_nan_bits, placement_line_of, placement_line_value,
    undefined_value, yg_value_of, yg_value_undefined, Length, Placement, Track, YgValue, NAN_BITS, ONE_BITS,
    ZERO_BITS,
};

verus! {

/// Which of a node's four sets of edge values.
#[derive(Clone, Copy, Debug, PartialEq, Eq, Structural)]
pub enum EdgeKind {
    Position,
    Margin,
    Padding,
    Border,
}

/// Which of a node's six dimensions.
#[derive(Clone, Copy, Debug, PartialEq, Eq, Structural)]
pub enum DimensionKind {
    Width,
    Height,
    MinWidth,
    MinHeight,
    MaxWidth,
    MaxHeight,
}

/// Which of a node's four grid placements.
#[derive(Clone, Copy, Debug, PartialEq, Eq, Structural)]
pub enum PlacementKind {
    RowStart,
    RowEnd,
    ColumnStart,
    ColumnEnd,
}

/// Which of a node's four grid track lists.
#[derive(Clone, Copy, Debug, PartialEq, Eq, Structural)]
pub enum TrackListKind {
    TemplateRows,
    TemplateColumns,
    AutoRows,
    AutoColumns,
}

/// The edge values of one kind.
pub open spec fn edge_values_of(d: NodeData, kind: EdgeKind) -> EdgeValues {
    match kind {
        EdgeKind::Position => d.position_edges,
        EdgeKind::Margin => d.margin_edges,
        EdgeKind::Padding => d.padding_edges,
        EdgeKind::Border => d.border_edges,
    }
}

/// The data with the edge values of one kind replaced.
pub open spec fn with_edge_values(d: NodeData, kind: EdgeKind, e: EdgeValues) -> NodeData {
    match kind {
        EdgeKind::Position => NodeData { position_edges: e, ..d },
        EdgeKind::Margin => NodeData { margin_edges: e, ..d },
        EdgeKind::Padding => NodeData { padding_edges: e, ..d },
        EdgeKind::Border => NodeData { border_edges: e, ..d },
    }
}

/// One of the six dimensions of a style.
pub open spec fn dimension_of(s: NodeStyle, kind: DimensionKind) -> Length {
    match kind {
        DimensionKind::Width => s.size.width,
        DimensionKind::Height => s.size.height,
        DimensionKind::MinWidth => s.min_size.width,
        DimensionKind::MinHeight => s.min_size.height,
        DimensionKind::MaxWidth => s.max_size.width,
        DimensionKind::MaxHeight => s.max_size.height,
    }
}

/// The style with one dimension replaced.
pub open spec fn with_dimension(s: NodeStyle, kind: DimensionKind, value: Length) -> NodeStyle {
    match kind {
        DimensionKind::Width => NodeStyle { size: crate::edges::SizePair { width: value, ..s.size }, ..s },
        DimensionKind::Height => NodeStyle { size: crate::edges::SizePair { height: value, ..s.size }, ..s },
        DimensionKind::MinWidth => NodeStyle { min_size: crate::edges::SizePair { width: value, ..s.min_size }, ..s },
        DimensionKind::MinHeight => NodeStyle { min_size: crate::edges::SizePair { height: value, ..s.min_size }, ..s },
        DimensionKind::MaxWidth => NodeStyle { max_size: crate::edges::SizePair { width: value, ..s.max_size }, ..s },
        DimensionKind::MaxHeight => NodeStyle { max_size: crate::edges::SizePair { height: value, ..s.max_size }, ..s },
    }
}

/// One of the four grid placements of a style.
pub open spec fn placement_of(s: NodeStyle, kind: PlacementKind) -> Placement {
    match kind {
        PlacementKind::RowStart => s.grid_row_start,
        PlacementKind::RowEnd => s.grid_row_end,
        PlacementKind::ColumnStart => s.grid_column_start,
        PlacementKind::ColumnEnd => s.grid_column_end,
    }
}

/// The style with one grid placement replaced.
pub open spec fn with_placement(s: NodeStyle, kind: PlacementKind, p: Placement) -> NodeStyle {
    match kind {
        PlacementKind::RowStart => NodeStyle { grid_row_start: p, ..s },
        PlacementKind::RowEnd => NodeStyle { grid_row_end: p, ..s },
        PlacementKind::ColumnStart => NodeStyle { grid_column_start: p, ..s },
        PlacementKind::ColumnEnd => NodeStyle { grid_column_end: p, ..s },
    }
}

/// The style with the gap of a gutter set: the column gap for `column`, the
/// row gap for `row`, and both for any other code.
pub open spec fn with_gap(s: NodeStyle, gutter: i32, value: Length) -> NodeStyle {
    if gutter == YG_GUTTER_COLUMN {
        NodeStyle { gap: crate::edges::SizePair { width: value, ..s.gap }, ..s }
    } else if gutter == YG_GUTTER_ROW {
        NodeStyle { gap: crate::edges::SizePair { height: value, ..s.gap }, ..s }
    } else {
        NodeStyle { gap: crate::edges::SizePair { width: value, height: value }, ..s }
    }
}

/// The positioning scheme of a position type code.
pub open spec fn position_from_code(code: i32) -> Position {
    if code == YG_POSITION_TYPE_ABSOLUTE {
        Position::Absolute
    } else {
        Position::Relative
    }
}

/// The display mode of a display code.
pub open spec fn display_from_code(code: i32) -> Display {
    if code == YG_DISPLAY_NONE {
        Display::Off
    } else if code == YG_DISPLAY_GRID {
        Display::Grid
    } else {
        Display::Flex
    }
}

/// The overflow mode of an overflow code.
pub open spec fn overflow_from_code(code: i32) -> Overflow {
    if code == YG_OVERFLOW_HIDDEN {
        Overflow::Hidden
    } else if code == YG_OVERFLOW_SCROLL {
        Overflow::Scroll
    } else {
        Overflow::Visible
    }
}

/// The code of an overflow mode (clip reads as visible).
pub open spec fn overflow_code(o: Overflow) -> i32 {
    match o {
        Overflow::Hidden => YG_OVERFLOW_HIDDEN,
        Overflow::Scroll => YG_OVERFLOW_SCROLL,
        _ => YG_OVERFLOW_VISIBLE,
    }
}

/// The box sizing of a box sizing code.
pub open spec fn box_sizing_from_code(code: i32) -> BoxSizing {
    if code == YG_BOX_SIZING_CONTENT_BOX {
        BoxSizing::ContentBox
    } else {
        BoxSizing::BorderBox
    }
}

/// The code of a box sizing.
pub open spec fn box_sizing_code(b: BoxSizing) -> i32 {
    match b {
        BoxSizing::BorderBox => YG_BOX_SIZING_BORDER_BOX,
        BoxSizing::ContentBox => YG_BOX_SIZING_CONTENT_BOX,
    }
}

/// How `justify-content` reads back: its code, or `flex-start` when unset.
pub open spec fn justify_content_reading(s: NodeStyle) -> i32 {
    match s.justify_content {
        Some(v) => justify_code(v),
        None => YG_JUSTIFY_FLEX_START,
    }
}

/// How `align-content` reads back: its code, or `flex-start` when unset.
pub open spec fn align_content_reading(s: NodeStyle) -> i32 {
    match s.align_content {
        Some(v) => align_content_code(v),
        None => YG_ALIGN_FLEX_START,
    }
}

/// How an item alignment reads back: its code, or `default` when unset.
pub open spec fn align_reading(v: Option<crate::codes::AlignItems>, default: i32) -> i32 {
    match v {
        Some(a) => align_items_code(a),
        None => default,
    }
}

/// How `flex-grow` reads back: the value set, or 0 when none was set.
pub open spec fn flex_grow_reading(d: NodeData) -> u32 {
    if d.has_flex_grow {
        d.style.flex_grow
    } else {
        ZERO_BITS
    }
}

/// How `flex-shrink` reads back: the value set, or else 1 with web defaults
/// and 0 without.
pub open spec fn flex_shrink_reading(d: NodeData, use_web_defaults: bool) -> u32 {
    if d.has_flex_shrink {
        d.style.flex_shrink
    } else if use_web_defaults {
        ONE_BITS
    } else {
        ZERO_BITS
    }
}

/// How an edge value reads back as a `YGValue`: undefined when unset.
pub open spec fn edge_reading(e: EdgeValues, edge: i32) -> YgValue {
    match e.exact(edge) {
        Some(l) => yg_value_of(l),
        None => undefined_value(),
    }
}

/// The number a length carries (NaN for keyword lengths).
pub open spec fn length_number(l: Length) -> u32 {
    match l {
        Length::Points(v) => v,
        Length::Percent(v) => v,
        Length::Fr(v) => v,
        Length::FitContentPx(v) => v,
        Length::FitContentPercent(v) => v,
        _ => NAN_BITS,
    }
}

/// How a border reads back: the number set on the edge, or NaN when unset.
pub open spec fn border_reading(e: EdgeValues, edge: i32) -> u32 {
    match e.exact(edge) {
        Some(l) => length_number(l),
        None => NAN_BITS,
    }
}

/// How a gap reads back: the column gap for `column`, the row gap otherwise.
pub open spec fn gap_reading(s: NodeStyle, gutter: i32) -> YgValue {
    if gutter == YG_GUTTER_COLUMN {
        yg_value_of(s.gap.width)
    } else {
        yg_value_of(s.gap.height)
    }
}

/// The style with the gap of a gutter set.
fn style_with_gap(s: NodeStyle, gutter: i32, value: Length) -> (r: NodeStyle)
    ensures
        r == with_gap(s, gutter, value),
{
    let mut r = s;
    if gutter == YG_GUTTER_COLUMN {
        r.gap.width = value;
    } else if gutter == YG_GUTTER_ROW {
        r.gap.height = value;
    } else {
        r.gap.width = value;
        r.gap.height = value;
    }
    r
}

impl NodeTree {
    /// Sets the layout direction code (Yoga's `YGNodeStyleSetDirection`).
    pub fn set_direction(&mut self, node: usize, direction: i32) -> (dirtied: Vec<usize>)
        requires
            old(self).wf(),
            (node as int) < old(self)@.nodes.len(),
        ensures
            final(self).wf(),
            restyled_to(old(self)@, final(self)@, dirtied@, node, NodeData { direction, ..old(self)@.nodes[node as int].data }),
    {
        let mut d = self.data(node);
        proof { self.lemma_wf_view(); }
        d.direction = direction;
        self.set_data_and_mark(node, d)
    }

    /// Sets the flex direction from its code (Yoga's `YGNodeStyleSetFlexDirection`).
    pub fn set_flex_direction(&mut self, node: usize, code: i32) -> (dirtied: Vec<usize>)
        requires
            old(self).wf(),
            (node as int) < old(self)@.nodes.len(),
        ensures
            final(self).wf(),
            ({
                let d = old(self)@.nodes[node as int].data;
                restyled_to(old(self)@, final(self)@, dirtied@, node, NodeData {
                    style: NodeStyle { flex_direction: flex_direction_from_code(code), ..d.style },
                    ..d
                })
            }),
    {
        let mut d = self.data(node);
        proof { self.lemma_wf_view(); }
        d.style.flex_direction = map_flex_direction(code);
        self.set_data_and_mark(node, d)
    }

    /// Sets `justify-content` from its code (Yoga's `YGNodeStyleSetJustifyContent`).
    pub fn set_justify_content(&mut self, node: usize, code: i32) -> (dirtied: Vec<usize>)
        requires
            old(self).wf(),
            (node as int) < old(self)@.nodes.len(),
        ensures
            final(self).wf(),
            ({
                let d = old(self)@.nodes[node as int].data;
                restyled_to(old(self)@, final(self)@, dirtied@, node, NodeData {
                    style: NodeStyle { justify_content: justify_from_code(code), ..d.style },
                    ..d
                })
            }),
    {
        let mut d = self.data(node);
        proof { self.lemma_wf_view(); }
        d.style.justify_content = map_justify(code);
        self.set_data_and_mark(node, d)
    }

    /// Sets `justify-items` from its code (Yoga's `YGNodeStyleSetJustifyItems`).
    pub fn set_justify_items(&mut self, node: usize, code: i32) -> (dirtied: Vec<usize>)
        requires
            old(self).wf(),
            (node as int) < old(self)@.nodes.len(),
        ensures
            final(self).wf(),
            ({
                let d = old(self)@.nodes[node as int].data;
                restyled_to(old(self)@, final(self)@, dirtied@, node, NodeData {
                    style: NodeStyle { justify_items: align_items_from_code(code), ..d.style },
                    ..d
                })
            }),
    {
        let mut d = self.data(node);
        proof { self.lemma_wf_view(); }
        d.style.justify_items = map_align(code);
        self.set_data_and_mark(node, d)
    }

    /// Sets `justify-self` from its code (Yoga's `YGNodeStyleSetJustifySelf`).
    pub fn set_justify_self(&mut self, node: usize, code: i32) -> (dirtied: Vec<usize>)
        requires
            old(self).wf(),
            (node as int) < old(self)@.nodes.len(),
        ensures
            final(self).wf(),
            ({
                let d = old(self)@.nodes[node as int].data;
                restyled_to(old(self)@, final(self)@, dirtied@, node, NodeData {
                    style: NodeStyle { justify_self: align_items_from_code(code), ..d.style },
                    ..d
                })
            }),
    {
        let mut d = self.data(node);
        proof { self.lemma_wf_view(); }
        d.style.justify_self = map_align(code);
        self.set_data_and_mark(node, d)
    }

    /// Sets `align-content` from its code (Yoga's `YGNodeStyleSetAlignContent`).
    pub fn set_align_content(&mut self, node: usize, code: i32) -> (dirtied: Vec<usize>)
        requires
            old(self).wf(),
            (node as int) < old(self)@.nodes.len(),
        ensures
            final(self).wf(),
            ({
                let d = old(self)@.nodes[node as int].data;
                restyled_to(old(self)@, final(self)@, dirtied@, node, NodeData {
                    style: NodeStyle { align_content: align_content_from_code(code), ..d.style },
                    ..d
                })
            }),
    {
        let mut d = self.data(node);
        proof { self.lemma_wf_view(); }
        d.style.align_content = map_align_content(code);
        self.set_data_and_mark(node, d)
    }

    /// Sets `align-items` from its code (Yoga's `YGNodeStyleSetAlignItems`).
    pub fn set_align_items(&mut self, node: usize, code: i32) -> (dirtied: Vec<usize>)
        requires
            old(self).wf(),
            (node as int) < old(self)@.nodes.len(),
        ensures
            final(self).wf(),
            ({
                let d = old(self)@.nodes[node as int].data;
                restyled_to(old(self)@, final(self)@, dirtied@, node, NodeData {
                    style: NodeStyle { align_items: align_items_from_code(code), ..d.style },
                    ..d
                })
            }),
    {
        let mut d = self.data(node);
        proof { self.lemma_wf_view(); }
        d.style.align_items = map_align(code);
        self.set_data_and_mark(node, d)
    }

    /// Sets `align-self` from its code (Yoga's `YGNodeStyleSetAlignSelf`).
    pub fn set_align_self(&mut self, node: usize, code: i32) -> (dirtied: Vec<usize>)
        requires
            old(self).wf(),
            (node as int) < old(self)@.nodes.len(),
        ensures
            final(self).wf(),
            ({
                let d = old(self)@.nodes[node as int].data;
                restyled_to(old(self)@, final(self)@, dirtied@, node, NodeData {
                    style: NodeStyle { align_self: align_items_from_code(code), ..d.style },
                    ..d
                })
            }),
    {
        let mut d = self.data(node);
        proof { self.lemma_wf_view(); }
        d.style.align_self = map_align(code);
        self.set_data_and_mark(node, d)
    }

    /// Sets the position type from its code (Yoga's `YGNodeStyleSetPositionType`):
    /// the code is kept as it is, and absolute or relative positioning follows from it.
    pub fn set_position_type(&mut self, node: usize, code: i32) -> (dirtied: Vec<usize>)
        requires
            old(self).wf(),
            (node as int) < old(self)@.nodes.len(),
        ensures
            final(self).wf(),
            ({
                let d = old(self)@.nodes[node as int].data;
                restyled_to(old(self)@, final(self)@, dirtied@, node, NodeData {
                    position_type_mode: code,
                    style: NodeStyle { position: position_from_code(code), ..d.style },
                    ..d
                })
            }),
    {
        let mut d = self.data(node);
        proof { self.lemma_wf_view(); }
        d.position_type_mode = code;
        d.style.position = map_position_type(code);
        self.set_data_and_mark(node, d)
    }

    /// Sets the wrap mode from its code (Yoga's `YGNodeStyleSetFlexWrap`).
    pub fn set_flex_wrap(&mut self, node: usize, code: i32) -> (dirtied: Vec<usize>)
        requires
            old(self).wf(),
            (node as int) < old(self)@.nodes.len(),
        ensures
            final(self).wf(),
            ({
                let d = old(self)@.nodes[node as int].data;
                restyled_to(old(self)@, final(self)@, dirtied@, node, NodeData {
                    style: NodeStyle { flex_wrap: wrap_from_code(code), ..d.style },
                    ..d
                })
            }),
    {
        let mut d = self.data(node);
        proof { self.lemma_wf_view(); }
        d.style.flex_wrap = map_wrap(code);
        self.set_data_and_mark(node, d)
    }

    /// Sets the overflow of both axes from its code (Yoga's `YGNodeStyleSetOverflow`).
    pub fn set_overflow(&mut self, node: usize, code: i32) -> (dirtied: Vec<usize>)
        requires
            old(self).wf(),
            (node as int) < old(self)@.nodes.len(),
        ensures
            final(self).wf(),
            ({
                let d = old(self)@.nodes[node as int].data;
                restyled_to(old(self)@, final(self)@, dirtied@, node, NodeData {
                    style: NodeStyle { overflow_x: overflow_from_code(code), overflow_y: overflow_from_code(code), ..d.style },
                    ..d
                })
            }),
    {
        let mut d = self.data(node);
        proof { self.lemma_wf_view(); }
        let value = map_overflow(code);
        d.style.overflow_x = value;
        d.style.overflow_y = value;
        self.set_data_and_mark(node, d)
    }

    /// Sets the display from its code (Yoga's `YGNodeStyleSetDisplay`): the
    /// code is kept as it is, and the display mode follows from it.
    pub fn set_display(&mut self, node: usize, code: i32) -> (dirtied: Vec<usize>)
        requires
            old(self).wf(),
            (node as int) < old(self)@.nodes.len(),
        ensures
            final(self).wf(),
            ({
                let d = old(self)@.nodes[node as int].data;
                restyled_to(old(self)@, final(self)@, dirtied@, node, NodeData {
                    display_mode: code,
                    style: NodeStyle { display: display_from_code(code), ..d.style },
                    ..d
                })
            }),
    {
        let mut d = self.data(node);
        proof { self.lemma_wf_view(); }
        d.display_mode = code;
        d.style.display = map_display(code);
        self.set_data_and_mark(node, d)
    }

    /// Sets the `flex` shorthand (Yoga's `YGNodeStyleSetFlex`).
    pub fn set_flex(&mut self, node: usize, flex: u32) -> (dirtied: Vec<usize>)
        requires
            old(self).wf(),
            (node as int) < old(self)@.nodes.len(),
        ensures
            final(self).wf(),
            restyled_to(old(self)@, final(self)@, dirtied@, node, NodeData { flex: Some(flex), ..old(self)@.nodes[node as int].data }),
    {
        let mut d = self.data(node);
        proof { self.lemma_wf_view(); }
        d.flex = Some(flex);
        self.set_data_and_mark(node, d)
    }

    /// Sets `flex-grow` (Yoga's `YGNodeStyleSetFlexGrow`).
    pub fn set_flex_grow(&mut self, node: usize, flex_grow: u32) -> (dirtied: Vec<usize>)
        requires
            old(self).wf(),
            (node as int) < old(self)@.nodes.len(),
        ensures
            final(self).wf(),
            ({
                let d = old(self)@.nodes[node as int].data;
                restyled_to(old(self)@, final(self)@, dirtied@, node, NodeData {
                    has_flex_grow: true,
                    style: NodeStyle { flex_grow, ..d.style },
                    ..d
                })
            }),
    {
        let mut d = self.data(node);
        proof { self.lemma_wf_view(); }
        d.style.flex_grow = flex_grow;
        d.has_flex_grow = true;
        self.set_data_and_mark(node, d)
    }

    /// Sets `flex-shrink` (Yoga's `YGNodeStyleSetFlexShrink`).
    pub fn set_flex_shrink(&mut self, node: usize, flex_shrink: u32) -> (dirtied: Vec<usize>)
        requires
            old(self).wf(),
            (node as int) < old(self)@.nodes.len(),
        ensures
            final(self).wf(),
            ({
                let d = old(self)@.nodes[node as int].data;
                restyled_to(old(self)@, final(self)@, dirtied@, node, NodeData {
                    has_flex_shrink: true,
                    style: NodeStyle { flex_shrink, ..d.style },
                    ..d
                })
            }),
    {
        let mut d = self.data(node);
        proof { self.lemma_wf_view(); }
        d.style.flex_shrink = flex_shrink;
        d.has_flex_shrink = true;
        self.set_data_and_mark(node, d)
    }

    /// Sets `flex-basis` (Yoga's `YGNodeStyleSetFlexBasis*`).
    pub fn set_flex_basis(&mut self, node: usize, value: Length) -> (dirtied: Vec<usize>)
        requires
            old(self).wf(),
            (node as int) < old(self)@.nodes.len(),
        ensures
            final(self).wf(),
            ({
                let d = old(self)@.nodes[node as int].data;
                restyled_to(old(self)@, final(self)@, dirtied@, node, NodeData {
                    style: NodeStyle { flex_basis: value, ..d.style },
                    ..d
                })
            }),
    {
        let mut d = self.data(node);
        proof { self.lemma_wf_view(); }
        d.style.flex_basis = value;
        self.set_data_and_mark(node, d)
    }

    /// Sets the value of one edge of one kind (Yoga's `YGNodeStyleSetPosition*`,
    /// `SetMargin*`, `SetPadding*` and `SetBorder`); a code that names no edge
    /// changes no edge value but still marks the chain dirty.
    pub fn set_edge_value(&mut self, node: usize, kind: EdgeKind, edge: i32, value: Length) -> (dirtied: Vec<usize>)
        requires
            old(self).wf(),
            (node as int) < old(self)@.nodes.len(),
        ensures
            final(self).wf(),
            ({
                let d = old(self)@.nodes[node as int].data;
                restyled_to(old(self)@, final(self)@, dirtied@, node, with_edge_values(
                    d,
                    kind,
                    edges_with(edge_values_of(d, kind), edge, value),
                ))
            }),
    {
        let mut d = self.data(node);
        proof { self.lemma_wf_view(); }
        match kind {
            EdgeKind::Position => d.position_edges.set(edge, value),
            EdgeKind::Margin => d.margin_edges.set(edge, value),
            EdgeKind::Padding => d.padding_edges.set(edge, value),
            EdgeKind::Border => d.border_edges.set(edge, value),
        }
        self.set_data_and_mark(node, d)
    }

    /// Sets the gap of a gutter (Yoga's `YGNodeStyleSetGap*`).
    pub fn set_gap(&mut self, node: usize, gutter: i32, value: Length) -> (dirtied: Vec<usize>)
        requires
            old(self).wf(),
            (node as int) < old(self)@.nodes.len(),
        ensures
            final(self).wf(),
            ({
                let d = old(self)@.nodes[node as int].data;
                restyled_to(old(self)@, final(self)@, dirtied@, node, NodeData { style: with_gap(d.style, gutter, value), ..d })
            }),
    {
        let mut d = self.data(node);
        proof { self.lemma_wf_view(); }
        d.style = style_with_gap(d.style, gutter, value);
        self.set_data_and_mark(node, d)
    }

    /// Sets the box sizing from its code (Yoga's `YGNodeStyleSetBoxSizing`).
    pub fn set_box_sizing(&mut self, node: usize, code: i32) -> (dirtied: Vec<usize>)
        requires
            old(self).wf(),
            (node as int) < old(self)@.nodes.len(),
        ensures
            final(self).wf(),
            ({
                let d = old(self)@.nodes[node as int].data;
                restyled_to(old(self)@, final(self)@, dirtied@, node, NodeData {
                    style: NodeStyle { box_sizing: box_sizing_from_code(code), ..d.style },
                    ..d
                })
            }),
    {
        let mut d = self.data(node);
        proof { self.lemma_wf_view(); }
        d.style.box_sizing = map_box_sizing(code);
        self.set_data_and_mark(node, d)
    }

    /// Sets one dimension (Yoga's `YGNodeStyleSet{Width,Height,MinWidth,...}*`).
    pub fn set_dimension(&mut self, node: usize, kind: DimensionKind, value: Length) -> (dirtied: Vec<usize>)
        requires
            old(self).wf(),
            (node as int) < old(self)@.nodes.len(),
        ensures
            final(self).wf(),
            ({
                let d = old(self)@.nodes[node as int].data;
                restyled_to(old(self)@, final(self)@, dirtied@, node, NodeData { style: with_dimension(d.style, kind, value), ..d })
            }),
    {
        let mut d = self.data(node);
        proof { self.lemma_wf_view(); }
        match kind {
            DimensionKind::Width => d.style.size.width = value,
            DimensionKind::Height => d.style.size.height = value,
            DimensionKind::MinWidth => d.style.min_size.width = value,
            DimensionKind::MinHeight => d.style.min_size.height = value,
            DimensionKind::MaxWidth => d.style.max_size.width = value,
            DimensionKind::MaxHeight => d.style.max_size.height = value,
        }
        self.set_data_and_mark(node, d)
    }

    /// Sets the aspect ratio (Yoga's `YGNodeStyleSetAspectRatio`); NaN unsets it.
    pub fn set_aspect_ratio(&mut self, node: usize, ratio: u32) -> (dirtied: Vec<usize>)
        requires
            old(self).wf(),
            (node as int) < old(self)@.nodes.len(),
        ensures
            final(self).wf(),
            ({
                let d = old(self)@.nodes[node as int].data;
                restyled_to(old(self)@, final(self)@, dirtied@, node, NodeData {
                    style: NodeStyle { aspect_ratio: if is_nan_bits(ratio) { None } else { Some(ratio) }, ..d.style },
                    ..d
                })
            }),
    {
        let mut d = self.data(node);
        proof { self.lemma_wf_view(); }
        d.style.aspect_ratio = if f32_bits_is_nan(ratio) { None } else { Some(ratio) };
        self.set_data_and_mark(node, d)
    }

    /// Sets one grid placement (Yoga's `YGNodeStyleSetGrid{Row,Column}{Start,End}*`).
    pub fn set_grid_placement(&mut self, node: usize, kind: PlacementKind, p: Placement) -> (dirtied: Vec<usize>)
        requires
            old(self).wf(),
            (node as int) < old(self)@.nodes.len(),
        ensures
            final(self).wf(),
            ({
                let d = old(self)@.nodes[node as int].data;
                restyled_to(old(self)@, final(self)@, dirtied@, node, NodeData { style: with_placement(d.style, kind, p), ..d })
            }),
    {
        let mut d = self.data(node);
        proof { self.lemma_wf_view(); }
        match kind {
            PlacementKind::RowStart => d.style.grid_row_start = p,
            PlacementKind::RowEnd => d.style.grid_row_end = p,
            PlacementKind::ColumnStart => d.style.grid_column_start = p,
            PlacementKind::ColumnEnd => d.style.grid_column_end = p,
        }
        self.set_data_and_mark(node, d)
    }

    /// Registers or clears the measure callback (Yoga's `YGNodeSetMeasureFunc`):
    /// a node with one is a text node, one without a default node.
    pub fn set_measure_func(&mut self, node: usize, has: bool) -> (dirtied: Vec<usize>)
        requires
            old(self).wf(),
            (node as int) < old(self)@.nodes.len(),
        ensures
            final(self).wf(),
            restyled_to(old(self)@, final(self)@, dirtied@, node, NodeData {
                node_type: if has { YG_NODE_TYPE_TEXT } else { YG_NODE_TYPE_DEFAULT },
                has_measure_func: has,
                ..old(self)@.nodes[node as int].data
            }),
    {
        let mut d = self.data(node);
        proof { self.lemma_wf_view(); }
        d.node_type = if has { YG_NODE_TYPE_TEXT } else { YG_NODE_TYPE_DEFAULT };
        d.has_measure_func = has;
        self.set_data_and_mark(node, d)
    }

    /// Registers or clears the baseline callback (Yoga's `YGNodeSetBaselineFunc`).
    pub fn set_baseline_func(&mut self, node: usize, has: bool) -> (dirtied: Vec<usize>)
        requires
            old(self).wf(),
            (node as int) < old(self)@.nodes.len(),
        ensures
            final(self).wf(),
            restyled_to(old(self)@, final(self)@, dirtied@, node, NodeData { has_baseline_func: has, ..old(self)@.nodes[node as int].data }),
    {
        let mut d = self.data(node);
        proof { self.lemma_wf_view(); }
        d.has_baseline_func = has;
        self.set_data_and_mark(node, d)
    }

    /// Sets whether the node is the reference baseline (Yoga's `YGNodeSetIsReferenceBaseline`).
    pub fn set_is_reference_baseline(&mut self, node: usize, value: bool) -> (dirtied: Vec<usize>)
        requires
            old(self).wf(),
            (node as int) < old(self)@.nodes.len(),
        ensures
            final(self).wf(),
            restyled_to(old(self)@, final(self)@, dirtied@, node, NodeData { is_reference_baseline: value, ..old(self)@.nodes[node as int].data }),
    {
        let mut d = self.data(node);
        proof { self.lemma_wf_view(); }
        d.is_reference_baseline = value;
        self.set_data_and_mark(node, d)
    }

    /// Sets the has-new-layout flag, marking nothing (Yoga's `YGNodeSetHasNewLayout`).
    pub fn set_has_new_layout(&mut self, node: usize, value: bool)
        requires
            old(self).wf(),
            (node as int) < old(self)@.nodes.len(),
        ensures
            final(self).wf(),
            final(self)@ == with_data(old(self)@, node, NodeData { has_new_layout: value, ..old(self)@.nodes[node as int].data }),
    {
        let mut d = self.data(node);
        proof { self.lemma_wf_view(); }
        d.has_new_layout = value;
        self.set_data_raw(node, d)
    }

    /// Records whether a dirtied callback is registered, marking nothing
    /// (Yoga's `YGNodeSetDirtiedFunc`).
    pub fn set_dirtied_func(&mut self, node: usize, has: bool)
        requires
            old(self).wf(),
            (node as int) < old(self)@.nodes.len(),
        ensures
            final(self).wf(),
            final(self)@ == with_data(old(self)@, node, NodeData { has_dirtied_func: has, ..old(self)@.nodes[node as int].data }),
    {
        let mut d = self.data(node);
        proof { self.lemma_wf_view(); }
        d.has_dirtied_func = has;
        self.set_data_raw(node, d)
    }

    /// Sets the node type code, marking nothing (Yoga's `YGNodeSetNodeType`).
    pub fn set_node_type(&mut self, node: usize, node_type: i32)
        requires
            old(self).wf(),
            (node as int) < old(self)@.nodes.len(),
        ensures
            final(self).wf(),
            final(self)@ == with_data(old(self)@, node, NodeData { node_type, ..old(self)@.nodes[node as int].data }),
    {
        let mut d = self.data(node);
        proof { self.lemma_wf_view(); }
        d.node_type = node_type;
        self.set_data_raw(node, d)
    }

    /// Sets whether the node always forms a containing block, marking nothing
    /// (Yoga's `YGNodeSetAlwaysFormsContainingBlock`).
    pub fn set_always_forms_containing_block(&mut self, node: usize, value: bool)
        requires
            old(self).wf(),
            (node as int) < old(self)@.nodes.len(),
        ensures
            final(self).wf(),
            final(self)@ == with_data(old(self)@, node, NodeData { always_forms_containing_block: value, ..old(self)@.nodes[node as int].data }),
    {
        let mut d = self.data(node);
        proof { self.lemma_wf_view(); }
        d.always_forms_containing_block = value;
        self.set_data_raw(node, d)
    }

    /// Sets the node's configuration, the default one for `None`, marking
    /// nothing (Yoga's `YGNodeSetConfig`).
    pub fn set_node_config(&mut self, node: usize, config: Option<usize>)
        requires
            old(self).wf(),
            (node as int) < old(self)@.nodes.len(),
            config matches Some(c) ==> (c as int) < old(self)@.configs.len(),
        ensures
            final(self).wf(),
            final(self)@ == with_data(old(self)@, node, NodeData {
                config: match config { Some(c) => c, None => 0 },
                ..old(self)@.nodes[node as int].data
            }),
    {
        let mut d = self.data(node);
        proof { self.lemma_wf_view(); }
        d.config = match config {
            Some(c) => c,
            None => 0,
        };
        self.set_data_raw(node, d)
    }

    /// Replaces one of the node's grid track lists with a copy of `tracks`
    /// (Yoga's `YGNodeStyleSetGrid{TemplateRows,TemplateColumns,AutoRows,AutoColumns}`).
    pub fn set_grid_tracks(&mut self, node: usize, kind: TrackListKind, tracks: &Vec<Track>) -> (dirtied: Vec<usize>)
        requires
            old(self).wf(),
            (node as int) < old(self)@.nodes.len(),
        ensures
            final(self).wf(),
            ({
                let g = old(self)@.nodes[node as int].grid;
                let ng = match kind {
                    TrackListKind::TemplateRows => crate::tree::GridView { rows: tracks@, ..g },
                    TrackListKind::TemplateColumns => crate::tree::GridView { columns: tracks@, ..g },
                    TrackListKind::AutoRows => crate::tree::GridView { auto_rows: tracks@, ..g },
                    TrackListKind::AutoColumns => crate::tree::GridView { auto_columns: tracks@, ..g },
                };
                let w = TreeView {
                    nodes: old(self)@.nodes.update(node as int, crate::tree::NodeView { grid: ng, ..old(self)@.nodes[node as int] }),
                    configs: old(self)@.configs,
                };
                &&& final(self)@ == crate::tree::marked(w, crate::tree::chain(w, node))
                &&& dirtied@ == crate::tree::newly_dirtied(w, crate::tree::chain(w, node))
            }),
    {
        let g = self.grid(node);
        let mut rows = copy_vec(&g.rows);
        let mut columns = copy_vec(&g.columns);
        let mut auto_rows = copy_vec(&g.auto_rows);
        let mut auto_columns = copy_vec(&g.auto_columns);
        match kind {
            TrackListKind::TemplateRows => rows = copy_vec(tracks),
            TrackListKind::TemplateColumns => columns = copy_vec(tracks),
            TrackListKind::AutoRows => auto_rows = copy_vec(tracks),
            TrackListKind::AutoColumns => auto_columns = copy_vec(tracks),
        }
        let ng = GridTemplates { rows, columns, auto_rows, auto_columns };
        let r = self.set_grid_and_mark(node, ng);
        proof {
            assert(ng.view() =~= match kind {
                TrackListKind::TemplateRows => crate::tree::GridView { rows: tracks@, ..old(self)@.nodes[node as int].grid },
                TrackListKind::TemplateColumns => crate::tree::GridView { columns: tracks@, ..old(self)@.nodes[node as int].grid },
                TrackListKind::AutoRows => crate::tree::GridView { auto_rows: tracks@, ..old(self)@.nodes[node as int].grid },
                TrackListKind::AutoColumns => crate::tree::GridView { auto_columns: tracks@, ..old(self)@.nodes[node as int].grid },
            });
        }
        r
    }

    /// The direction code as it was set (Yoga's `YGNodeStyleGetDirection`).
    pub fn get_direction(&self, node: usize) -> (r: i32)
        requires
            (node as int) < self@.nodes.len(),
        ensures
            r == self@.nodes[node as int].data.direction,
    {
        self.data(node).direction
    }

    /// The flex direction code (Yoga's `YGNodeStyleGetFlexDirection`).
    pub fn get_flex_direction(&self, node: usize) -> (r: i32)
        requires
            (node as int) < self@.nodes.len(),
        ensures
            r == flex_direction_code(self@.nodes[node as int].data.style.flex_direction),
    {
        unmap_flex_direction(self.data(node).style.flex_direction)
    }

    /// The `justify-content` code, `flex-start` when unset (Yoga's `YGNodeStyleGetJustifyContent`).
    pub fn get_justify_content(&self, node: usize) -> (r: i32)
        requires
            (node as int) < self@.nodes.len(),
        ensures
            r == justify_content_reading(self@.nodes[node as int].data.style),
    {
        unmap_justify(self.data(node).style.justify_content, false)
    }

    /// The `justify-items` code, `auto` when unset (Yoga's `YGNodeStyleGetJustifyItems`).
    pub fn get_justify_items(&self, node: usize) -> (r: i32)
        requires
            (node as int) < self@.nodes.len(),
        ensures
            r == align_reading(self@.nodes[node as int].data.style.justify_items, YG_ALIGN_AUTO),
    {
        unmap_align(self.data(node).style.justify_items, true)
    }

    /// The `justify-self` code, `auto` when unset (Yoga's `YGNodeStyleGetJustifySelf`).
    pub fn get_justify_self(&self, node: usize) -> (r: i32)
        requires
            (node as int) < self@.nodes.len(),
        ensures
            r == align_reading(self@.nodes[node as int].data.style.justify_self, YG_ALIGN_AUTO),
    {
        unmap_align(self.data(node).style.justify_self, true)
    }

    /// The `align-content` code, `flex-start` when unset (Yoga's `YGNodeStyleGetAlignContent`).
    pub fn get_align_content(&self, node: usize) -> (r: i32)
        requires
            (node as int) < self@.nodes.len(),
        ensures
            r == align_content_reading(self@.nodes[node as int].data.style),
    {
        unmap_align_content(self.data(node).style.align_content, false)
    }

    /// The `align-items` code, `stretch` when unset (Yoga's `YGNodeStyleGetAlignItems`).
    pub fn get_align_items(&self, node: usize) -> (r: i32)
        requires
            (node as int) < self@.nodes.len(),
        ensures
            r == align_reading(self@.nodes[node as int].data.style.align_items, YG_ALIGN_STRETCH),
    {
        unmap_align(self.data(node).style.align_items, false)
    }

    /// The `align-self` code, `auto` when unset (Yoga's `YGNodeStyleGetAlignSelf`).
    pub fn get_align_self(&self, node: usize) -> (r: i32)
        requires
            (node as int) < self@.nodes.len(),
        ensures
            r == align_reading(self@.nodes[node as int].data.style.align_self, YG_ALIGN_AUTO),
    {
        unmap_align(self.data(node).style.align_self, true)
    }

    /// The position type code as it was set (Yoga's `YGNodeStyleGetPositionType`).
    pub fn get_position_type(&self, node: usize) -> (r: i32)
        requires
            (node as int) < self@.nodes.len(),
        ensures
            r == self@.nodes[node as int].data.position_type_mode,
    {
        self.data(node).position_type_mode
    }

    /// The wrap mode code (Yoga's `YGNodeStyleGetFlexWrap`).
    pub fn get_flex_wrap(&self, node: usize) -> (r: i32)
        requires
            (node as int) < self@.nodes.len(),
        ensures
            r == wrap_code(self@.nodes[node as int].data.style.flex_wrap),
    {
        unmap_wrap(self.data(node).style.flex_wrap)
    }

    /// The overflow code of the horizontal axis (Yoga's `YGNodeStyleGetOverflow`).
    pub fn get_overflow(&self, node: usize) -> (r: i32)
        requires
            (node as int) < self@.nodes.len(),
        ensures
            r == overflow_code(self@.nodes[node as int].data.style.overflow_x),
    {
        unmap_overflow(self.data(node).style.overflow_x)
    }

    /// The display code as it was set (Yoga's `YGNodeStyleGetDisplay`).
    pub fn get_display(&self, node: usize) -> (r: i32)
        requires
            (node as int) < self@.nodes.len(),
        ensures
            r == self@.nodes[node as int].data.display_mode,
    {
        self.data(node).display_mode
    }

    /// The box sizing code (Yoga's `YGNodeStyleGetBoxSizing`).
    pub fn get_box_sizing(&self, node: usize) -> (r: i32)
        requires
            (node as int) < self@.nodes.len(),
        ensures
            r == box_sizing_code(self@.nodes[node as int].data.style.box_sizing),
    {
        unmap_box_sizing(self.data(node).style.box_sizing)
    }

    /// The `flex` shorthand, NaN when unset (Yoga's `YGNodeStyleGetFlex`).
    pub fn get_flex(&self, node: usize) -> (r: u32)
        requires
            (node as int) < self@.nodes.len(),
        ensures
            r == match self@.nodes[node as int].data.flex {
                Some(b) => b,
                None => NAN_BITS,
            },
    {
        match self.data(node).flex {
            Some(b) => b,
            None => NAN_BITS,
        }
    }

    /// `flex-grow`, 0 when unset (Yoga's `YGNodeStyleGetFlexGrow`).
    pub fn get_flex_grow(&self, node: usize) -> (r: u32)
        requires
            (node as int) < self@.nodes.len(),
        ensures
            r == flex_grow_reading(self@.nodes[node as int].data),
    {
        let d = self.data(node);
        if d.has_flex_grow {
            d.style.flex_grow
        } else {
            ZERO_BITS
        }
    }

    /// `flex-shrink`; when unset, 1 under web defaults and 0 otherwise (Yoga's
    /// `YGNodeStyleGetFlexShrink`).
    pub fn get_flex_shrink(&self, node: usize) -> (r: u32)
        requires
            self.wf(),
            (node as int) < self@.nodes.len(),
        ensures
            r == flex_shrink_reading(
                self@.nodes[node as int].data,
                self@.configs[self@.nodes[node as int].data.config as int].use_web_defaults,
            ),
    {
        let d = self.data(node);
        proof {
            self.lemma_wf_view();
        }
        if d.has_flex_shrink {
            d.style.flex_shrink
        } else if self.config(d.config).use_web_defaults {
            ONE_BITS
        } else {
            ZERO_BITS
        }
    }

    /// `flex-basis` as a `YGValue` (Yoga's `YGNodeStyleGetFlexBasis`).
    pub fn get_flex_basis(&self, node: usize) -> (r: YgValue)
        requires
            (node as int) < self@.nodes.len(),
        ensures
            r == yg_value_of(self@.nodes[node as int].data.style.flex_basis),
    {
        compact_to_yg_value(self.data(node).style.flex_basis)
    }

    /// The value set on one edge of one kind, undefined when unset (Yoga's
    /// `YGNodeStyleGetPosition`, `GetMargin` and `GetPadding`).
    pub fn get_edge_value(&self, node: usize, kind: EdgeKind, edge: i32) -> (r: YgValue)
        requires
            (node as int) < self@.nodes.len(),
        ensures
            r == edge_reading(edge_values_of(self@.nodes[node as int].data, kind), edge),
    {
        let d = self.data(node);
        let e = match kind {
            EdgeKind::Position => d.position_edges,
            EdgeKind::Margin => d.margin_edges,
            EdgeKind::Padding => d.padding_edges,
            EdgeKind::Border => d.border_edges,
        };
        match e.get_exact(edge) {
            Some(l) => compact_to_yg_value(l),
            None => yg_value_undefined(),
        }
    }

    /// The border width set on an edge, NaN when unset (Yoga's `YGNodeStyleGetBorder`).
    pub fn get_border(&self, node: usize, edge: i32) -> (r: u32)
        requires
            (node as int) < self@.nodes.len(),
        ensures
            r == border_reading(self@.nodes[node as int].data.border_edges, edge),
    {
        match self.data(node).border_edges.get_exact(edge) {
            Some(l) => match l {
                Length::Points(v) => v,
                Length::Percent(v) => v,
                Length::Fr(v) => v,
                Length::FitContentPx(v) => v,
                Length::FitContentPercent(v) => v,
                _ => NAN_BITS,
            },
            None => NAN_BITS,
        }
    }

    /// The gap of a gutter as a `YGValue` (Yoga's `YGNodeStyleGetGap`).
    pub fn get_gap(&self, node: usize, gutter: i32) -> (r: YgValue)
        requires
            (node as int) < self@.nodes.len(),
        ensures
            r == gap_reading(self@.nodes[node as int].data.style, gutter),
    {
        let s = self.data(node).style;
        if gutter == YG_GUTTER_COLUMN {
            compact_to_yg_value(s.gap.width)
        } else {
            compact_to_yg_value(s.gap.height)
        }
    }

    /// One dimension as a `YGValue` (Yoga's `YGNodeStyleGet{Width,Height,...}`).
    pub fn get_dimension(&self, node: usize, kind: DimensionKind) -> (r: YgValue)
        requires
            (node as int) < self@.nodes.len(),
        ensures
            r == yg_value_of(dimension_of(self@.nodes[node as int].data.style, kind)),
    {
        let s = self.data(node).style;
        let l = match kind {
            DimensionKind::Width => s.size.width,
            DimensionKind::Height => s.size.height,
            DimensionKind::MinWidth => s.min_size.width,
            DimensionKind::MinHeight => s.min_size.height,
            DimensionKind::MaxWidth => s.max_size.width,
            DimensionKind::MaxHeight => s.max_size.height,
        };
        compact_to_yg_value(l)
    }

    /// The aspect ratio, NaN when unset (Yoga's `YGNodeStyleGetAspectRatio`).
    pub fn get_aspect_ratio(&self, node: usize) -> (r: u32)
        requires
            (node as int) < self@.nodes.len(),
        ensures
            r == match self@.nodes[node as int].data.style.aspect_ratio {
                Some(b) => b,
                None => NAN_BITS,
            },
    {
        match self.data(node).style.aspect_ratio {
            Some(b) => b,
            None => NAN_BITS,
        }
    }

    /// One grid placement as a line index, 0 when it is not a line (Yoga's
    /// `YGNodeStyleGetGrid{Row,Column}{Start,End}`).
    pub fn get_grid_placement(&self, node: usize, kind: PlacementKind) -> (r: i32)
        requires
            (node as int) < self@.nodes.len(),
        ensures
            r == placement_line_of(placement_of(self@.nodes[node as int].data.style, kind)),
    {
        let s = self.data(node).style;
        let p = match kind {
            PlacementKind::RowStart => s.grid_row_start,
            PlacementKind::RowEnd => s.grid_row_end,
            PlacementKind::ColumnStart => s.grid_column_start,
            PlacementKind::ColumnEnd => s.grid_column_end,
        };
        placement_line_value(p)
    }

    /// Copies the style of `src` onto `dst` (Yoga's `YGNodeCopyStyle`): the
    /// style with its grid track lists, the display and position type codes,
    /// the `flex` shorthand and whether grow and shrink were set, the
    /// direction, and the four sets of edge values; then marks `dst`'s chain
    /// dirty. Returns the dirtied callbacks to call.
    pub fn copy_style(&mut self, dst: usize, src: usize) -> (dirtied: Vec<usize>)
        requires
            old(self).wf(),
            (dst as int) < old(self)@.nodes.len(),
            (src as int) < old(self)@.nodes.len(),
        ensures
            final(self).wf(),
            ({
                let v = old(self)@;
                let s = v.nodes[src as int].data;
                let w = TreeView {
                    nodes: v.nodes.update(dst as int, crate::tree::NodeView { grid: v.nodes[src as int].grid, ..v.nodes[dst as int] }),
                    configs: v.configs,
                };
                restyled_to(w, final(self)@, dirtied@, dst, NodeData {
                    style: s.style,
                    display_mode: s.display_mode,
                    position_type_mode: s.position_type_mode,
                    flex: s.flex,
                    has_flex_grow: s.has_flex_grow,
                    has_flex_shrink: s.has_flex_shrink,
                    direction: s.direction,
                    position_edges: s.position_edges,
                    margin_edges: s.margin_edges,
                    padding_edges: s.padding_edges,
                    border_edges: s.border_edges,
                    ..v.nodes[dst as int].data
                })
            }),
    {
        let s = self.data(src);
        let g = self.grid(src);
        let ng = GridTemplates {
            rows: copy_vec(&g.rows),
            columns: copy_vec(&g.columns),
            auto_rows: copy_vec(&g.auto_rows),
            auto_columns: copy_vec(&g.auto_columns),
        };
        proof {
            assert(ng.view() =~= old(self)@.nodes[src as int].grid);
        }
        self.set_grid_raw(dst, ng);
        let mut d = self.data(dst);
        proof { self.lemma_wf_view(); }
        d.style = s.style;
        d.display_mode = s.display_mode;
        d.position_type_mode = s.position_type_mode;
        d.flex = s.flex;
        d.has_flex_grow = s.has_flex_grow;
        d.has_flex_shrink = s.has_flex_shrink;
        d.direction = s.direction;
        d.position_edges = s.position_edges;
        d.margin_edges = s.margin_edges;
        d.padding_edges = s.padding_edges;
        d.border_edges = s.border_edges;
        self.set_data_and_mark(dst, d)
    }
}

} // verus!
