//! The decisions that follow a layout run: which rule places an absolutely
//! positioned node on each axis and how it aligns there, and which nodes the
//! right-to-left and centring adjustments apply to. The adjustments
//! themselves are arithmetic on the computed boxes.
use vstd::prelude::*;
use crate::codes::{
    AlignContent, AlignItems, FlexDirection, FlexWrap, Position, YG_DIRECTION_RTL, YG_DISPLAY_CONTENTS,
    YG_DISPLAY_NONE, YG_EDGE_BOTTOM, YG_EDGE_END, YG_EDGE_LEFT, YG_EDGE_RIGHT, YG_EDGE_START, YG_EDGE_TOP,
    YG_POSITION_TYPE_STATIC,
};
use crate::edges::EdgeValues;
use crate::tree::NodeData;
use crate::values::Length;

verus! {

/// The node is positioned absolutely.
pub open spec fn is_absolute(d: NodeData) -> bool {
    d.style.position == Position::Absolute
}

/// The node is not displayed.
pub open spec fn is_hidden(d: NodeData) -> bool {
    d.display_mode == YG_DISPLAY_NONE
}

/// The node takes part in its owner's flow: displayed and not absolute.
pub open spec fn in_flow(d: NodeData) -> bool {
    !is_hidden(d) && !is_absolute(d)
}

/// The node has `display: contents`.
pub open spec fn is_contents(d: NodeData) -> bool {
    d.display_mode == YG_DISPLAY_CONTENTS
}

/// The node was laid out right to left.
pub open spec fn is_rtl(d: NodeData) -> bool {
    d.layout_direction == YG_DIRECTION_RTL
}

/// The flex direction is a column.
pub open spec fn is_column(fd: FlexDirection) -> bool {
    fd == FlexDirection::Column || fd == FlexDirection::ColumnReverse
}

/// A value is set on `edge`.
pub open spec fn has_edge(e: EdgeValues, edge: i32) -> bool {
    e.exact(edge) is Some
}

/// A value is set on one of the horizontal edges: start, end, left or right.
pub open spec fn any_horizontal_edge(e: EdgeValues) -> bool {
    has_edge(e, YG_EDGE_START) || has_edge(e, YG_EDGE_END) || has_edge(e, YG_EDGE_LEFT) || has_edge(e, YG_EDGE_RIGHT)
}

/// A percentage is set on some edge.
pub open spec fn any_percent_edge(e: EdgeValues) -> bool {
    exists|edge: i32| 0 <= edge < 9 && #[trigger] e.exact(edge) matches Some(Length::Percent(_))
}

/// A length that resolves to a number against a reference length: points
/// and percentages do, `auto` and an unset value do not.
pub open spec fn resolvable(l: Option<Length>) -> bool {
    l matches Some(Length::Points(_)) || l matches Some(Length::Percent(_))
}

/// Whether a value is set on one of the horizontal edges.
pub fn has_horizontal_edge(e: &EdgeValues) -> (r: bool)
    ensures
        r == any_horizontal_edge(*e),
{
    e.get_exact(YG_EDGE_START).is_some() || e.get_exact(YG_EDGE_END).is_some() || e.get_exact(YG_EDGE_LEFT).is_some()
        || e.get_exact(YG_EDGE_RIGHT).is_some()
}

/// Whether a percentage is set on some edge.
pub fn has_percent_edge(e: &EdgeValues) -> (r: bool)
    ensures
        r == any_percent_edge(*e),
{
    let mut edge: i32 = 0;
    while edge < 9
        invariant
            0 <= edge <= 9,
            forall|k: i32| 0 <= k < edge ==> !(#[trigger] e.exact(k) matches Some(Length::Percent(_))),
        decreases 9 - edge,
    {
        if let Some(Length::Percent(_)) = e.get_exact(edge) {
            return true;
        }
        edge = edge + 1;
    }
    false
}

fn is_resolvable(l: Option<Length>) -> (r: bool)
    ensures
        r == resolvable(l),
{
    matches!(l, Some(Length::Points(_)) | Some(Length::Percent(_)))
}

/// The rule that places an absolutely positioned node horizontally.
#[derive(Clone, Copy, Debug, PartialEq, Eq, Structural)]
pub enum HorizontalPlacement {
    /// From its start inset (from the right under right-to-left).
    Start,
    /// Right to left, from its right inset, when left and right are both set
    /// and start and end are not.
    RightInRtl,
    /// From its left inset.
    Left,
    /// From its end inset.
    End,
    /// From its right inset.
    Right,
    /// Aligned in the available space, having no horizontal inset.
    Aligned,
    /// Where the engine put it.
    Unchanged,
}

/// The rule that places an absolutely positioned node vertically.
#[derive(Clone, Copy, Debug, PartialEq, Eq, Structural)]
pub enum VerticalPlacement {
    /// From its top inset.
    Top,
    /// From its bottom inset.
    Bottom,
    /// Aligned in the available space, having no vertical inset.
    Aligned,
    /// Where the engine put it.
    Unchanged,
}

/// How an absolutely positioned node is placed horizontally. `compat` tells
/// that its containing block is not its owner: the insets left, end and right
/// then place it too.
pub open spec fn horizontal_placement(d: NodeData, compat: bool) -> HorizontalPlacement {
    let e = d.position_edges;
    let start = resolvable(e.exact(YG_EDGE_START));
    let end = resolvable(e.exact(YG_EDGE_END));
    let left = resolvable(e.exact(YG_EDGE_LEFT));
    let right = resolvable(e.exact(YG_EDGE_RIGHT));
    if start {
        HorizontalPlacement::Start
    } else if is_rtl(d) && !has_edge(e, YG_EDGE_START) && !has_edge(e, YG_EDGE_END) && left && right {
        HorizontalPlacement::RightInRtl
    } else if compat && left {
        HorizontalPlacement::Left
    } else if compat && end {
        HorizontalPlacement::End
    } else if compat && right {
        HorizontalPlacement::Right
    } else if !end && !left && !right {
        HorizontalPlacement::Aligned
    } else {
        HorizontalPlacement::Unchanged
    }
}

/// How an absolutely positioned node is placed vertically.
pub open spec fn vertical_placement(d: NodeData, compat: bool) -> VerticalPlacement {
    let top = resolvable(d.position_edges.exact(YG_EDGE_TOP));
    let bottom = resolvable(d.position_edges.exact(YG_EDGE_BOTTOM));
    if compat && top {
        VerticalPlacement::Top
    } else if compat && bottom {
        VerticalPlacement::Bottom
    } else if !top && !bottom {
        VerticalPlacement::Aligned
    } else {
        VerticalPlacement::Unchanged
    }
}

/// The horizontal placement rule of an absolutely positioned node.
pub fn choose_horizontal_placement(d: &NodeData, compat: bool) -> (r: HorizontalPlacement)
    ensures
        r == horizontal_placement(*d, compat),
{
    let e = &d.position_edges;
    let start = is_resolvable(e.get_exact(YG_EDGE_START));
    let end = is_resolvable(e.get_exact(YG_EDGE_END));
    let left = is_resolvable(e.get_exact(YG_EDGE_LEFT));
    let right = is_resolvable(e.get_exact(YG_EDGE_RIGHT));
    let rtl = d.layout_direction == YG_DIRECTION_RTL;
    if start {
        HorizontalPlacement::Start
    } else if rtl && e.get_exact(YG_EDGE_START).is_none() && e.get_exact(YG_EDGE_END).is_none() && left && right {
        HorizontalPlacement::RightInRtl
    } else if compat && left {
        HorizontalPlacement::Left
    } else if compat && end {
        HorizontalPlacement::End
    } else if compat && right {
        HorizontalPlacement::Right
    } else if !end && !left && !right {
        HorizontalPlacement::Aligned
    } else {
        HorizontalPlacement::Unchanged
    }
}

/// The vertical placement rule of an absolutely positioned node.
pub fn choose_vertical_placement(d: &NodeData, compat: bool) -> (r: VerticalPlacement)
    ensures
        r == vertical_placement(*d, compat),
{
    let top = is_resolvable(d.position_edges.get_exact(YG_EDGE_TOP));
    let bottom = is_resolvable(d.position_edges.get_exact(YG_EDGE_BOTTOM));
    if compat && top {
        VerticalPlacement::Top
    } else if compat && bottom {
        VerticalPlacement::Bottom
    } else if !top && !bottom {
        VerticalPlacement::Aligned
    } else {
        VerticalPlacement::Unchanged
    }
}

/// Where a box is aligned on an axis: at the start, at the end, or centred.
#[derive(Clone, Copy, Debug, PartialEq, Eq, Structural)]
pub enum AxisAlign {
    Start,
    End,
    Center,
}

/// The alignment with start and end traded.
pub open spec fn flipped(a: AxisAlign) -> AxisAlign {
    match a {
        AxisAlign::Start => AxisAlign::End,
        AxisAlign::End => AxisAlign::Start,
        AxisAlign::Center => AxisAlign::Center,
    }
}

/// The alignment on the main axis that `justify-content` gives: centred,
/// at the end for flex-end and end, else at the start.
pub open spec fn main_axis_align(j: Option<AlignContent>) -> AxisAlign {
    match j {
        Some(AlignContent::Center) => AxisAlign::Center,
        Some(AlignContent::FlexEnd) | Some(AlignContent::End) => AxisAlign::End,
        _ => AxisAlign::Start,
    }
}

/// The alignment on the cross axis that an item alignment gives.
pub open spec fn cross_axis_align(a: Option<AlignItems>) -> AxisAlign {
    match a {
        Some(AlignItems::Center) => AxisAlign::Center,
        Some(AlignItems::FlexEnd) | Some(AlignItems::End) => AxisAlign::End,
        _ => AxisAlign::Start,
    }
}

/// The horizontal and vertical alignment of an absolutely positioned node
/// `d` with no inset on an axis, in its owner `o`: the main axis follows the
/// owner's `justify-content`, flipped for a reversed direction; the cross
/// axis follows the node's `align-self`, else the owner's `align-items`,
/// flipped for reversed wrapping; a row's main axis is horizontal.
pub open spec fn absolute_alignment(d: NodeData, o: NodeData) -> (AxisAlign, AxisAlign) {
    let fd = o.style.flex_direction;
    let main = main_axis_align(o.style.justify_content);
    let main = if fd == FlexDirection::RowReverse || fd == FlexDirection::ColumnReverse { flipped(main) } else { main };
    let item = match d.style.align_self {
        Some(a) => Some(a),
        None => o.style.align_items,
    };
    let cross = cross_axis_align(item);
    let cross = if o.style.flex_wrap == FlexWrap::WrapReverse { flipped(cross) } else { cross };
    if fd == FlexDirection::Row || fd == FlexDirection::RowReverse {
        (main, cross)
    } else {
        (cross, main)
    }
}

fn flip_align(a: AxisAlign) -> (r: AxisAlign)
    ensures
        r == flipped(a),
{
    match a {
        AxisAlign::Start => AxisAlign::End,
        AxisAlign::End => AxisAlign::Start,
        AxisAlign::Center => AxisAlign::Center,
    }
}

/// The horizontal and vertical alignment of an absolutely positioned node in its owner.
pub fn absolute_axis_alignment(d: &NodeData, o: &NodeData) -> (r: (AxisAlign, AxisAlign))
    ensures
        r == absolute_alignment(*d, *o),
{
    let main = match o.style.justify_content {
        Some(AlignContent::Center) => AxisAlign::Center,
        Some(AlignContent::FlexEnd) | Some(AlignContent::End) => AxisAlign::End,
        _ => AxisAlign::Start,
    };
    let reversed = matches!(o.style.flex_direction, FlexDirection::RowReverse | FlexDirection::ColumnReverse);
    let main = if reversed { flip_align(main) } else { main };
    let item = match d.style.align_self {
        Some(a) => Some(a),
        None => o.style.align_items,
    };
    let cross = match item {
        Some(AlignItems::Center) => AxisAlign::Center,
        Some(AlignItems::FlexEnd) | Some(AlignItems::End) => AxisAlign::End,
        _ => AxisAlign::Start,
    };
    let cross = if matches!(o.style.flex_wrap, FlexWrap::WrapReverse) { flip_align(cross) } else { cross };
    if matches!(o.style.flex_direction, FlexDirection::Row | FlexDirection::RowReverse) {
        (main, cross)
    } else {
        (cross, main)
    }
}

/// The node has a percentage size or a percentage on some edge of its
/// position, margin, padding or border.
pub open spec fn has_percent_geometry(d: NodeData) -> bool {
    d.style.size.width matches Length::Percent(_) || d.style.size.height matches Length::Percent(_) || any_percent_edge(
        d.position_edges,
    ) || any_percent_edge(d.margin_edges) || any_percent_edge(d.padding_edges) || any_percent_edge(d.border_edges)
}

/// An absolutely positioned node with no inset on an axis is aligned in its
/// direct owner's content box when its containing block is not its owner
/// and nothing of it is a percentage; else in the containing block's.
pub open spec fn aligns_in_owner(d: NodeData, compat: bool) -> bool {
    compat && !has_percent_geometry(d)
}

/// Whether an absolutely positioned node aligns in its direct owner's content box.
pub fn aligns_in_direct_owner(d: &NodeData, compat: bool) -> (r: bool)
    ensures
        r == aligns_in_owner(*d, compat),
{
    if !compat {
        return false;
    }
    let percent = matches!(d.style.size.width, Length::Percent(_)) || matches!(d.style.size.height, Length::Percent(_))
        || has_percent_edge(&d.position_edges) || has_percent_edge(&d.margin_edges) || has_percent_edge(
        &d.padding_edges,
    ) || has_percent_edge(&d.border_edges);
    !percent
}

/// An absolutely positioned node with an owner, displayed, is placed in its
/// containing block after the layout run.
pub open spec fn placed_absolutely(d: NodeData, has_owner: bool) -> bool {
    is_absolute(d) && has_owner && !is_hidden(d)
}

/// Whether a node is placed in its containing block after the layout run.
pub fn is_placed_absolutely(d: &NodeData, has_owner: bool) -> (r: bool)
    ensures
        r == placed_absolutely(*d, has_owner),
{
    matches!(d.style.position, Position::Absolute) && has_owner && d.display_mode != YG_DISPLAY_NONE
}

/// A child `d` of `o` is mirrored horizontally in its owner: the owner is a
/// right-to-left column, not `display: contents`, not wrapping in reverse,
/// with no padding or border on its start or end edge; the child is
/// displayed, in flow, and has no horizontal inset.
pub open spec fn mirrored_in_rtl_column(d: NodeData, o: NodeData) -> bool {
    &&& in_flow(d)
    &&& !is_contents(o)
    &&& is_rtl(o)
    &&& is_column(o.style.flex_direction)
    &&& !has_edge(o.padding_edges, YG_EDGE_START)
    &&& !has_edge(o.padding_edges, YG_EDGE_END)
    &&& !has_edge(o.border_edges, YG_EDGE_START)
    &&& !has_edge(o.border_edges, YG_EDGE_END)
    &&& o.style.flex_wrap != FlexWrap::WrapReverse
    &&& !any_horizontal_edge(d.position_edges)
}

/// Whether a child is mirrored horizontally in its right-to-left column owner.
pub fn is_mirrored_in_rtl_column(d: &NodeData, o: &NodeData) -> (r: bool)
    ensures
        r == mirrored_in_rtl_column(*d, *o),
{
    let rtl_column = o.display_mode != YG_DISPLAY_CONTENTS && o.layout_direction == YG_DIRECTION_RTL && matches!(
        o.style.flex_direction,
        FlexDirection::Column | FlexDirection::ColumnReverse
    );
    let logical_box = o.padding_edges.get_exact(YG_EDGE_START).is_some() || o.padding_edges.get_exact(
        YG_EDGE_END,
    ).is_some() || o.border_edges.get_exact(YG_EDGE_START).is_some() || o.border_edges.get_exact(YG_EDGE_END).is_some();
    let in_flow = d.display_mode != YG_DISPLAY_NONE && !matches!(d.style.position, Position::Absolute);
    in_flow && rtl_column && !logical_box && !matches!(o.style.flex_wrap, FlexWrap::WrapReverse)
        && !has_horizontal_edge(&d.position_edges)
}

/// A child `d` of `o` is shifted back by the overflow of a right-to-left,
/// unwrapped row that spaces its children out (space between, around or
/// evenly), when the children overflow it.
pub open spec fn shifted_in_spaced_rtl_row(d: NodeData, o: NodeData) -> bool {
    &&& in_flow(d)
    &&& !is_contents(o)
    &&& is_rtl(o)
    &&& o.style.flex_wrap == FlexWrap::NoWrap
    &&& o.style.flex_direction == FlexDirection::Row
    &&& (o.style.justify_content == Some(AlignContent::SpaceBetween) || o.style.justify_content == Some(
        AlignContent::SpaceAround,
    ) || o.style.justify_content == Some(AlignContent::SpaceEvenly))
}

/// Whether a child is shifted back by its spaced right-to-left row's overflow.
pub fn is_shifted_in_spaced_rtl_row(d: &NodeData, o: &NodeData) -> (r: bool)
    ensures
        r == shifted_in_spaced_rtl_row(*d, *o),
{
    let in_flow = d.display_mode != YG_DISPLAY_NONE && !matches!(d.style.position, Position::Absolute);
    let spaced = matches!(
        o.style.justify_content,
        Some(AlignContent::SpaceBetween) | Some(AlignContent::SpaceAround) | Some(AlignContent::SpaceEvenly)
    );
    in_flow && o.display_mode != YG_DISPLAY_CONTENTS && o.layout_direction == YG_DIRECTION_RTL && matches!(
        o.style.flex_wrap,
        FlexWrap::NoWrap
    ) && matches!(o.style.flex_direction, FlexDirection::Row) && spaced
}

/// Whether a node counts toward the width of its owner's row: it is in flow.
pub fn is_in_flow(d: &NodeData) -> (r: bool)
    ensures
        r == in_flow(*d),
{
    d.display_mode != YG_DISPLAY_NONE && !matches!(d.style.position, Position::Absolute)
}

/// The margin set on `edge` is `auto`.
pub open spec fn auto_margin(d: NodeData, edge: i32) -> bool {
    d.margin_edges.exact(edge) == Some(Length::Auto)
}

/// A child `d` of an unwrapped column `o` centred by `justify-content`, with
/// an automatic left or right margin: when wider than the column it is
/// placed at the column's start instead.
pub open spec fn centred_with_auto_margin(d: NodeData, o: NodeData) -> bool {
    &&& in_flow(d)
    &&& !is_contents(o)
    &&& o.style.flex_wrap == FlexWrap::NoWrap
    &&& is_column(o.style.flex_direction)
    &&& o.style.justify_content == Some(AlignContent::Center)
    &&& (auto_margin(d, YG_EDGE_LEFT) || auto_margin(d, YG_EDGE_RIGHT))
}

/// Whether a child of a centred column has an automatic horizontal margin,
/// and, when it has, whether its left and right margins are automatic.
pub fn centred_auto_margins(d: &NodeData, o: &NodeData) -> (r: Option<(bool, bool)>)
    ensures
        r is Some <==> centred_with_auto_margin(*d, *o),
        r matches Some((left, right)) ==> left == auto_margin(*d, YG_EDGE_LEFT) && right == auto_margin(
            *d,
            YG_EDGE_RIGHT,
        ),
{
    let in_flow = d.display_mode != YG_DISPLAY_NONE && !matches!(d.style.position, Position::Absolute);
    let centred = o.display_mode != YG_DISPLAY_CONTENTS && matches!(o.style.flex_wrap, FlexWrap::NoWrap) && matches!(
        o.style.flex_direction,
        FlexDirection::Column | FlexDirection::ColumnReverse
    ) && matches!(o.style.justify_content, Some(AlignContent::Center));
    let left = matches!(d.margin_edges.get_exact(YG_EDGE_LEFT), Some(Length::Auto));
    let right = matches!(d.margin_edges.get_exact(YG_EDGE_RIGHT), Some(Length::Auto));
    if in_flow && centred && (left || right) {
        Some((left, right))
    } else {
        None
    }
}

/// A right-to-left child `d`, in flow, of a statically positioned owner `o`:
/// when the owner's containing block is wider than the owner, the child moves
/// by its percentage insets taken of the difference.
pub open spec fn rtl_child_of_static_owner(d: NodeData, o: NodeData) -> bool {
    in_flow(d) && is_rtl(d) && o.position_type_mode == YG_POSITION_TYPE_STATIC
}

/// Whether a child is a right-to-left child, in flow, of a static owner.
pub fn is_rtl_child_of_static_owner(d: &NodeData, o: &NodeData) -> (r: bool)
    ensures
        r == rtl_child_of_static_owner(*d, *o),
{
    d.display_mode != YG_DISPLAY_NONE && !matches!(d.style.position, Position::Absolute) && d.layout_direction
        == YG_DIRECTION_RTL && o.position_type_mode == YG_POSITION_TYPE_STATIC
}

/// The percentages (as fractions) set on the left, right, start and end
/// position edges, in that order, skipping the edges that hold none.
pub open spec fn horizontal_percent_insets(e: EdgeValues) -> Seq<u32> {
    percent_of(e.exact(YG_EDGE_LEFT)) + percent_of(e.exact(YG_EDGE_RIGHT)) + percent_of(e.exact(YG_EDGE_START))
        + percent_of(e.exact(YG_EDGE_END))
}

/// The fraction of a percentage, as a sequence of one, or an empty sequence.
pub open spec fn percent_of(l: Option<Length>) -> Seq<u32> {
    match l {
        Some(Length::Percent(f)) => seq![f],
        _ => Seq::empty(),
    }
}

fn push_percent(out: &mut Vec<u32>, l: Option<Length>)
    ensures
        final(out)@ == old(out)@ + percent_of(l),
{
    if let Some(Length::Percent(f)) = l {
        out.push(f);
    }
    proof {
        assert(final(out)@ =~= old(out)@ + percent_of(l));
    }
}

/// The percentages set on the horizontal position edges, as fractions.
pub fn percent_insets(e: &EdgeValues) -> (r: Vec<u32>)
    ensures
        r@ == horizontal_percent_insets(*e),
{
    let mut out: Vec<u32> = Vec::new();
    push_percent(&mut out, e.get_exact(YG_EDGE_LEFT));
    push_percent(&mut out, e.get_exact(YG_EDGE_RIGHT));
    push_percent(&mut out, e.get_exact(YG_EDGE_START));
    push_percent(&mut out, e.get_exact(YG_EDGE_END));
    proof {
        assert(out@ =~= horizontal_percent_insets(*e));
    }
    out
}

/// An absolutely positioned, displayed child `d` of an owner `o` in flow,
/// whose own owner `g` is a right-to-left column that is not `display:
/// contents` and does not wrap in reverse, where the owner has no horizontal
/// inset, and no horizontal margin unless `g` is static, and the child no
/// percentage border: the child keeps its place relative to where its owner
/// was before the owner was mirrored.
pub open spec fn follows_mirrored_owner(d: NodeData, o: NodeData, g: NodeData) -> bool {
    &&& is_absolute(d)
    &&& !is_hidden(d)
    &&& in_flow(o)
    &&& !is_contents(g)
    &&& is_rtl(g)
    &&& is_column(g.style.flex_direction)
    &&& g.style.flex_wrap != FlexWrap::WrapReverse
    &&& !any_horizontal_edge(o.position_edges)
    &&& !(any_horizontal_edge(o.margin_edges) && g.position_type_mode != YG_POSITION_TYPE_STATIC)
    &&& !any_percent_edge(d.border_edges)
}

/// Whether an absolutely positioned child keeps its place relative to its
/// mirrored owner.
pub fn does_follow_mirrored_owner(d: &NodeData, o: &NodeData, g: &NodeData) -> (r: bool)
    ensures
        r == follows_mirrored_owner(*d, *o, *g),
{
    let child = matches!(d.style.position, Position::Absolute) && d.display_mode != YG_DISPLAY_NONE;
    let owner = o.display_mode != YG_DISPLAY_NONE && !matches!(o.style.position, Position::Absolute);
    let column = g.display_mode != YG_DISPLAY_CONTENTS && g.layout_direction == YG_DIRECTION_RTL && matches!(
        g.style.flex_direction,
        FlexDirection::Column | FlexDirection::ColumnReverse
    ) && !matches!(g.style.flex_wrap, FlexWrap::WrapReverse);
    let owner_inset = has_horizontal_edge(&o.position_edges);
    let owner_margin = has_horizontal_edge(&o.margin_edges) && g.position_type_mode != YG_POSITION_TYPE_STATIC;
    child && owner && column && !owner_inset && !owner_margin && !has_percent_edge(&d.border_edges)
}

/// How the root of a layout moves on one axis by its insets.
#[derive(Clone, Copy, Debug, PartialEq, Eq, Structural)]
pub enum RootInset {
    /// By its near inset (left or top).
    Near,
    /// From the far side of the available space, by its far inset (right or bottom).
    Far,
    /// Not at all.
    Unmoved,
}

/// The root moves by its near inset when that resolves to a number, else
/// from the far side when its far inset does, else not at all.
pub open spec fn root_inset(near: Length, far: Length) -> RootInset {
    if resolvable(Some(near)) {
        RootInset::Near
    } else if resolvable(Some(far)) {
        RootInset::Far
    } else {
        RootInset::Unmoved
    }
}

/// How the root of a layout moves on an axis, given its resolved near and far insets.
pub fn choose_root_inset(near: Length, far: Length) -> (r: RootInset)
    ensures
        r == root_inset(near, far),
{
    if is_resolvable(Some(near)) {
        RootInset::Near
    } else if is_resolvable(Some(far)) {
        RootInset::Far
    } else {
        RootInset::Unmoved
    }
}

} // verus!
