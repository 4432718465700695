use yoga_core::codes::{
    YG_ALIGN_FLEX_END, YG_DIRECTION_RTL, YG_DISPLAY_CONTENTS, YG_DISPLAY_NONE, YG_EDGE_BOTTOM, YG_EDGE_END,
    YG_EDGE_LEFT, YG_EDGE_RIGHT, YG_EDGE_START, YG_EDGE_TOP, YG_FLEX_DIRECTION_COLUMN,
    YG_FLEX_DIRECTION_COLUMN_REVERSE, YG_FLEX_DIRECTION_ROW, YG_JUSTIFY_CENTER, YG_JUSTIFY_FLEX_START,
    YG_JUSTIFY_SPACE_BETWEEN, YG_POSITION_TYPE_ABSOLUTE, YG_POSITION_TYPE_STATIC, YG_WRAP_WRAP_REVERSE,
};
use yoga_core::node_style::{DimensionKind, EdgeKind};
use yoga_core::placement::{
    absolute_axis_alignment, aligns_in_direct_owner, centred_auto_margins, choose_horizontal_placement, choose_root_inset,
    choose_vertical_placement, does_follow_mirrored_owner, has_horizontal_edge, has_percent_edge, is_in_flow,
    is_mirrored_in_rtl_column, is_placed_absolutely, is_rtl_child_of_static_owner, is_shifted_in_spaced_rtl_row,
    percent_insets, AxisAlign, HorizontalPlacement, RootInset, VerticalPlacement,
};
use yoga_core::tree::{NodeData, NodeTree};
use yoga_core::values::Length;

fn pts(x: f32) -> Length {
    Length::Points(x.to_bits())
}

fn pct(fraction: f32) -> Length {
    Length::Percent(fraction.to_bits())
}

fn rtl(mut d: NodeData) -> NodeData {
    d.layout_direction = YG_DIRECTION_RTL;
    d
}

#[test]
fn horizontal_placement_rules() {
    let mut t = NodeTree::new();
    let n = t.new_node(0);
    assert_eq!(choose_horizontal_placement(&t.data(n), false), HorizontalPlacement::Aligned);
    t.set_edge_value(n, EdgeKind::Position, YG_EDGE_LEFT, pts(4.0));
    assert_eq!(choose_horizontal_placement(&t.data(n), false), HorizontalPlacement::Unchanged);
    assert_eq!(choose_horizontal_placement(&t.data(n), true), HorizontalPlacement::Left);
    t.set_edge_value(n, EdgeKind::Position, YG_EDGE_RIGHT, pct(0.5));
    assert_eq!(choose_horizontal_placement(&rtl(t.data(n)), false), HorizontalPlacement::RightInRtl);
    assert_eq!(choose_horizontal_placement(&t.data(n), false), HorizontalPlacement::Unchanged);
    t.set_edge_value(n, EdgeKind::Position, YG_EDGE_START, pts(1.0));
    assert_eq!(choose_horizontal_placement(&rtl(t.data(n)), false), HorizontalPlacement::Start);
    let m = t.new_node(0);
    t.set_edge_value(m, EdgeKind::Position, YG_EDGE_START, Length::Auto);
    t.set_edge_value(m, EdgeKind::Position, YG_EDGE_END, pts(2.0));
    assert_eq!(choose_horizontal_placement(&t.data(m), true), HorizontalPlacement::End);
    assert_eq!(choose_horizontal_placement(&t.data(m), false), HorizontalPlacement::Unchanged);
    let r = t.new_node(0);
    t.set_edge_value(r, EdgeKind::Position, YG_EDGE_RIGHT, pts(2.0));
    assert_eq!(choose_horizontal_placement(&t.data(r), true), HorizontalPlacement::Right);
}

#[test]
fn vertical_placement_rules() {
    let mut t = NodeTree::new();
    let n = t.new_node(0);
    assert_eq!(choose_vertical_placement(&t.data(n), true), VerticalPlacement::Aligned);
    t.set_edge_value(n, EdgeKind::Position, YG_EDGE_BOTTOM, pts(3.0));
    assert_eq!(choose_vertical_placement(&t.data(n), true), VerticalPlacement::Bottom);
    assert_eq!(choose_vertical_placement(&t.data(n), false), VerticalPlacement::Unchanged);
    t.set_edge_value(n, EdgeKind::Position, YG_EDGE_TOP, pct(0.25));
    assert_eq!(choose_vertical_placement(&t.data(n), true), VerticalPlacement::Top);
}

#[test]
fn alignment_of_absolute_children() {
    let mut t = NodeTree::new();
    let owner = t.new_node(0);
    let child = t.new_node(0);
    t.set_flex_direction(owner, YG_FLEX_DIRECTION_ROW);
    t.set_justify_content(owner, YG_JUSTIFY_CENTER);
    t.set_align_items(owner, YG_ALIGN_FLEX_END);
    assert_eq!(absolute_axis_alignment(&t.data(child), &t.data(owner)), (AxisAlign::Center, AxisAlign::End));
    t.set_flex_direction(owner, YG_FLEX_DIRECTION_COLUMN_REVERSE);
    t.set_justify_content(owner, YG_JUSTIFY_FLEX_START);
    t.set_flex_wrap(owner, YG_WRAP_WRAP_REVERSE);
    assert_eq!(absolute_axis_alignment(&t.data(child), &t.data(owner)), (AxisAlign::Start, AxisAlign::End));
}

#[test]
fn percentages_decide_where_absolute_children_align() {
    let mut t = NodeTree::new();
    let n = t.new_node(0);
    assert!(aligns_in_direct_owner(&t.data(n), true));
    assert!(!aligns_in_direct_owner(&t.data(n), false));
    assert!(!has_percent_edge(&t.data(n).padding_edges));
    t.set_edge_value(n, EdgeKind::Padding, YG_EDGE_TOP, pct(0.1));
    assert!(has_percent_edge(&t.data(n).padding_edges));
    assert!(!aligns_in_direct_owner(&t.data(n), true));
    let w = t.new_node(0);
    t.set_dimension(w, DimensionKind::Width, pct(0.5));
    assert!(!aligns_in_direct_owner(&t.data(w), true));
}

#[test]
fn which_nodes_the_adjustments_apply_to() {
    let mut t = NodeTree::new();
    let owner = t.new_node(0);
    let child = t.new_node(0);
    assert!(!is_placed_absolutely(&t.data(child), true));
    t.set_position_type(child, YG_POSITION_TYPE_ABSOLUTE);
    assert!(is_placed_absolutely(&t.data(child), true));
    assert!(!is_placed_absolutely(&t.data(child), false));
    assert!(!is_in_flow(&t.data(child)));

    let flow = t.new_node(0);
    t.set_flex_direction(owner, YG_FLEX_DIRECTION_COLUMN);
    assert!(is_mirrored_in_rtl_column(&t.data(flow), &rtl(t.data(owner))));
    assert!(!is_mirrored_in_rtl_column(&t.data(flow), &t.data(owner)));
    t.set_edge_value(owner, EdgeKind::Padding, YG_EDGE_START, pts(1.0));
    assert!(!is_mirrored_in_rtl_column(&t.data(flow), &rtl(t.data(owner))));

    let row = t.new_node(0);
    t.set_flex_direction(row, YG_FLEX_DIRECTION_ROW);
    t.set_justify_content(row, YG_JUSTIFY_SPACE_BETWEEN);
    assert!(is_shifted_in_spaced_rtl_row(&t.data(flow), &rtl(t.data(row))));
    t.set_display(row, YG_DISPLAY_CONTENTS);
    assert!(!is_shifted_in_spaced_rtl_row(&t.data(flow), &rtl(t.data(row))));

    let column = t.new_node(0);
    t.set_flex_direction(column, YG_FLEX_DIRECTION_COLUMN);
    t.set_justify_content(column, YG_JUSTIFY_CENTER);
    assert_eq!(centred_auto_margins(&t.data(flow), &t.data(column)), None);
    t.set_edge_value(flow, EdgeKind::Margin, YG_EDGE_RIGHT, Length::Auto);
    assert_eq!(centred_auto_margins(&t.data(flow), &t.data(column)), Some((false, true)));
    assert!(has_horizontal_edge(&t.data(flow).margin_edges));

    let static_owner = t.new_node(0);
    t.set_position_type(static_owner, YG_POSITION_TYPE_STATIC);
    assert!(is_rtl_child_of_static_owner(&rtl(t.data(flow)), &t.data(static_owner)));
    assert!(!is_rtl_child_of_static_owner(&t.data(flow), &t.data(static_owner)));
    t.set_display(flow, YG_DISPLAY_NONE);
    assert!(!is_rtl_child_of_static_owner(&rtl(t.data(flow)), &t.data(static_owner)));
}

#[test]
fn absolute_child_follows_its_mirrored_owner() {
    let mut t = NodeTree::new();
    let grand = t.new_node(0);
    let owner = t.new_node(0);
    let child = t.new_node(0);
    t.set_position_type(child, YG_POSITION_TYPE_ABSOLUTE);
    t.set_flex_direction(grand, YG_FLEX_DIRECTION_COLUMN);
    assert!(does_follow_mirrored_owner(&t.data(child), &t.data(owner), &rtl(t.data(grand))));
    assert!(!does_follow_mirrored_owner(&t.data(child), &t.data(owner), &t.data(grand)));
    t.set_edge_value(owner, EdgeKind::Margin, YG_EDGE_LEFT, pts(2.0));
    assert!(!does_follow_mirrored_owner(&t.data(child), &t.data(owner), &rtl(t.data(grand))));
    t.set_position_type(grand, YG_POSITION_TYPE_STATIC);
    assert!(does_follow_mirrored_owner(&t.data(child), &t.data(owner), &rtl(t.data(grand))));
    t.set_edge_value(child, EdgeKind::Border, YG_EDGE_TOP, pct(0.1));
    assert!(!does_follow_mirrored_owner(&t.data(child), &t.data(owner), &rtl(t.data(grand))));
}

#[test]
fn percent_insets_in_edge_order() {
    let mut t = NodeTree::new();
    let n = t.new_node(0);
    assert!(percent_insets(&t.data(n).position_edges).is_empty());
    t.set_edge_value(n, EdgeKind::Position, YG_EDGE_END, pct(0.5));
    t.set_edge_value(n, EdgeKind::Position, YG_EDGE_START, pts(3.0));
    t.set_edge_value(n, EdgeKind::Position, YG_EDGE_LEFT, pct(0.25));
    assert_eq!(percent_insets(&t.data(n).position_edges), vec![0.25f32.to_bits(), 0.5f32.to_bits()]);
}

#[test]
fn root_insets_move_from_the_near_side_first() {
    assert_eq!(choose_root_inset(pts(1.0), pts(2.0)), RootInset::Near);
    assert_eq!(choose_root_inset(Length::Auto, pct(0.5)), RootInset::Far);
    assert_eq!(choose_root_inset(Length::Auto, Length::Auto), RootInset::Unmoved);
}
