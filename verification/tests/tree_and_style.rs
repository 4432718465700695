use yoga_core::codes::{
    AlignContent, FlexDirection, Position, YG_ALIGN_AUTO, YG_ALIGN_CENTER, YG_ALIGN_FLEX_START, YG_ALIGN_STRETCH,
    YG_DIRECTION_INHERIT, YG_DIRECTION_LTR, YG_DIRECTION_RTL, YG_DISPLAY_CONTENTS, YG_DISPLAY_FLEX, YG_DISPLAY_NONE,
    YG_EDGE_ALL, YG_EDGE_LEFT, YG_EDGE_START, YG_FLEX_DIRECTION_COLUMN, YG_FLEX_DIRECTION_ROW,
    YG_FLEX_DIRECTION_ROW_REVERSE, YG_GUTTER_ALL, YG_GUTTER_COLUMN, YG_GUTTER_ROW, YG_JUSTIFY_CENTER,
    YG_JUSTIFY_FLEX_START, YG_NODE_TYPE_DEFAULT, YG_NODE_TYPE_TEXT, YG_POSITION_TYPE_ABSOLUTE,
    YG_POSITION_TYPE_RELATIVE, YG_POSITION_TYPE_STATIC, YG_UNIT_PERCENT, YG_UNIT_POINT, YG_UNIT_UNDEFINED,
};
use yoga_core::layout_plan::{resolve_flex_basis, resolve_flex_grow, resolve_flex_shrink};
use yoga_core::node_style::{DimensionKind, EdgeKind, PlacementKind, TrackListKind};
use yoga_core::tree::NodeTree;
use yoga_core::values::{Length, Placement, Track, NAN_BITS, ONE_BITS, ZERO_BITS};

fn bits(x: f32) -> u32 {
    x.to_bits()
}

#[test]
fn new_node_has_yoga_defaults() {
    let mut t = NodeTree::new();
    let n = t.new_node(0);
    let d = t.data(n);
    assert!(d.is_dirty && d.has_new_layout);
    assert_eq!(d.display_mode, YG_DISPLAY_FLEX);
    assert_eq!(d.position_type_mode, YG_POSITION_TYPE_RELATIVE);
    assert_eq!(d.direction, YG_DIRECTION_INHERIT);
    assert_eq!(d.style.flex_direction, FlexDirection::Column);
    assert_eq!(d.style.align_content, Some(AlignContent::FlexStart));
    assert_eq!(d.style.flex_shrink, ZERO_BITS);
    assert_eq!(t.owner(n), None);
    assert_eq!(t.child_count(n), 0);
    assert_eq!(t.get_flex_direction(n), YG_FLEX_DIRECTION_COLUMN);
    assert_eq!(t.get_justify_content(n), YG_JUSTIFY_FLEX_START);
    assert_eq!(t.get_align_items(n), YG_ALIGN_STRETCH);
    assert_eq!(t.get_align_self(n), YG_ALIGN_AUTO);
    assert_eq!(t.get_align_content(n), YG_ALIGN_FLEX_START);
}

#[test]
fn web_defaults_change_new_nodes() {
    let mut t = NodeTree::new();
    let c = t.new_config();
    let mut cfg = t.config(c);
    cfg.use_web_defaults = true;
    t.set_config_record(c, cfg);
    let n = t.new_node(c);
    assert_eq!(t.get_flex_direction(n), YG_FLEX_DIRECTION_ROW);
    assert_eq!(t.data(n).style.flex_shrink, ONE_BITS);
    assert_eq!(t.get_flex_shrink(n), ONE_BITS);
    let m = t.new_node(0);
    assert_eq!(t.get_flex_shrink(m), ZERO_BITS);
}

#[test]
fn insert_and_remove_children() {
    let mut t = NodeTree::new();
    let root = t.new_node(0);
    let a = t.new_node(0);
    let b = t.new_node(0);
    let c = t.new_node(0);
    t.insert_child(root, a, 0);
    t.insert_child(root, b, 0);
    t.insert_child(root, c, 99);
    assert_eq!(t.child_count(root), 3);
    assert_eq!(t.get_child(root, 0), Some(b));
    assert_eq!(t.get_child(root, 1), Some(a));
    assert_eq!(t.get_child(root, 2), Some(c));
    assert_eq!(t.get_child(root, 3), None);
    assert_eq!(t.owner(a), Some(root));
    t.remove_child(root, a);
    assert_eq!(t.owner(a), None);
    assert_eq!(t.child_count(root), 2);
    t.remove_child(root, a);
    assert_eq!(t.child_count(root), 2);
    // Moving a child to another owner takes it out of the first.
    let other = t.new_node(0);
    t.insert_child(other, b, 0);
    assert_eq!(t.owner(b), Some(other));
    assert_eq!(t.child_count(root), 1);
    assert_eq!(t.get_child(root, 0), Some(c));
}

#[test]
fn removing_an_inserted_child_restores_the_children() {
    let mut t = NodeTree::new();
    let root = t.new_node(0);
    let a = t.new_node(0);
    let b = t.new_node(0);
    let x = t.new_node(0);
    t.insert_child(root, a, 0);
    t.insert_child(root, b, 1);
    t.insert_child(root, x, 1);
    assert_eq!(t.get_child(root, 1), Some(x));
    t.remove_child(root, x);
    assert_eq!((t.get_child(root, 0), t.get_child(root, 1), t.child_count(root)), (Some(a), Some(b), 2));
    assert_eq!(t.owner(x), None);
}

#[test]
fn cycles_are_detected_before_inserting() {
    let mut t = NodeTree::new();
    let root = t.new_node(0);
    let child = t.new_node(0);
    t.insert_child(root, child, 0);
    assert!(t.chain_contains(child, root));
    assert!(t.chain_contains(child, child));
    assert!(!t.chain_contains(root, child));
    assert_eq!(t.owner_chain(child), vec![child, root]);
    assert!(!t.chain_contains_cut(child, root, &vec![child]));
}

#[test]
fn dirtiness_propagates_and_callbacks_fire_once() {
    let mut t = NodeTree::new();
    let root = t.new_node(0);
    let mid = t.new_node(0);
    let leaf = t.new_node(0);
    t.insert_child(root, mid, 0);
    t.insert_child(mid, leaf, 0);
    for n in [root, mid, leaf] {
        t.set_has_new_layout(n, false);
    }
    // Make every node clean through a committed layout.
    let lp = t.prepare_layout(root, YG_DIRECTION_LTR).unwrap();
    t.commit_layout(&lp.plan, YG_DIRECTION_LTR);
    assert!(!t.data(root).is_dirty && !t.data(mid).is_dirty && !t.data(leaf).is_dirty);
    t.set_dirtied_func(root, true);
    t.set_dirtied_func(leaf, true);
    let called = t.mark_dirty(leaf);
    assert_eq!(called, vec![leaf, root]);
    assert!(t.data(mid).is_dirty && t.data(root).is_dirty);
    let again = t.set_flex_grow(leaf, bits(1.0));
    assert!(again.is_empty());
}

#[test]
fn swap_and_set_children() {
    let mut t = NodeTree::new();
    let root = t.new_node(0);
    let a = t.new_node(0);
    let b = t.new_node(0);
    let c = t.new_node(0);
    t.set_children(root, &vec![a, b]);
    assert_eq!((t.get_child(root, 0), t.get_child(root, 1)), (Some(a), Some(b)));
    assert_eq!((t.owner(a), t.owner(b)), (Some(root), Some(root)));
    assert_eq!(t.child_count(root), 2);
    t.swap_child(root, c, 1);
    assert_eq!(t.get_child(root, 1), Some(c));
    assert_eq!(t.owner(b), None);
    assert_eq!(t.owner(c), Some(root));
    t.swap_child(root, b, 5);
    assert_eq!(t.child_count(root), 2);
    t.set_children(root, &vec![c]);
    assert_eq!(t.child_count(root), 1);
    assert_eq!(t.owner(a), None);
    t.remove_all_children(root);
    assert_eq!(t.child_count(root), 0);
    assert_eq!(t.owner(c), None);
}

#[test]
fn free_clone_and_reset() {
    let mut t = NodeTree::new();
    let root = t.new_node(0);
    let a = t.new_node(0);
    let b = t.new_node(0);
    t.insert_child(root, a, 0);
    t.insert_child(a, b, 0);
    let copy = t.clone_node(a);
    assert_eq!(t.owner(copy), None);
    assert_eq!(t.get_child(copy, 0), Some(b));
    assert_eq!(t.owner(b), Some(a));
    t.free(a);
    assert_eq!(t.child_count(root), 0);
    assert_eq!(t.owner(b), None);
    assert_eq!((t.owner(a), t.child_count(a)), (None, 0));
    let r2 = t.new_node(0);
    let x = t.new_node(0);
    let y = t.new_node(0);
    t.insert_child(r2, x, 0);
    t.insert_child(x, y, 0);
    let freed = t.free_recursive(r2);
    assert_eq!(freed, vec![r2, x, y]);
    assert_eq!(t.owner(y), None);
    let lone = t.new_node(0);
    t.set_width(lone);
    t.reset(lone);
    assert_eq!(t.get_dimension(lone, DimensionKind::Width).unit, yoga_core::codes::YG_UNIT_AUTO);
}

trait SetWidth {
    fn set_width(&mut self, n: usize);
}

impl SetWidth for NodeTree {
    fn set_width(&mut self, n: usize) {
        self.set_dimension(n, DimensionKind::Width, Length::Points(bits(10.0)));
    }
}

#[test]
fn style_round_trips() {
    let mut t = NodeTree::new();
    let n = t.new_node(0);
    t.set_flex_direction(n, YG_FLEX_DIRECTION_ROW_REVERSE);
    assert_eq!(t.get_flex_direction(n), YG_FLEX_DIRECTION_ROW_REVERSE);
    t.set_justify_content(n, YG_JUSTIFY_CENTER);
    assert_eq!(t.get_justify_content(n), YG_JUSTIFY_CENTER);
    t.set_align_self(n, YG_ALIGN_CENTER);
    assert_eq!(t.get_align_self(n), YG_ALIGN_CENTER);
    t.set_align_items(n, YG_ALIGN_AUTO);
    assert_eq!(t.get_align_items(n), YG_ALIGN_STRETCH);
    t.set_position_type(n, YG_POSITION_TYPE_STATIC);
    assert_eq!(t.get_position_type(n), YG_POSITION_TYPE_STATIC);
    assert_eq!(t.data(n).style.position, Position::Relative);
    t.set_position_type(n, YG_POSITION_TYPE_ABSOLUTE);
    assert_eq!(t.data(n).style.position, Position::Absolute);
    t.set_display(n, YG_DISPLAY_CONTENTS);
    assert_eq!(t.get_display(n), YG_DISPLAY_CONTENTS);
    t.set_display(n, YG_DISPLAY_NONE);
    assert_eq!(t.data(n).style.display, yoga_core::codes::Display::Off);
    t.set_edge_value(n, EdgeKind::Margin, YG_EDGE_LEFT, Length::Points(bits(3.0)));
    let m = t.get_edge_value(n, EdgeKind::Margin, YG_EDGE_LEFT);
    assert_eq!((f32::from_bits(m.value), m.unit), (3.0, YG_UNIT_POINT));
    assert_eq!(t.get_edge_value(n, EdgeKind::Margin, YG_EDGE_ALL).unit, YG_UNIT_UNDEFINED);
    t.set_edge_value(n, EdgeKind::Border, YG_EDGE_START, Length::Points(bits(2.0)));
    assert_eq!(f32::from_bits(t.get_border(n, YG_EDGE_START)), 2.0);
    assert!(f32::from_bits(t.get_border(n, YG_EDGE_LEFT)).is_nan());
    t.set_gap(n, YG_GUTTER_ALL, Length::Percent(bits(0.5)));
    let g = t.get_gap(n, YG_GUTTER_ROW);
    assert_eq!((f32::from_bits(g.value), g.unit), (0.5, YG_UNIT_PERCENT));
    t.set_gap(n, YG_GUTTER_COLUMN, Length::Points(bits(1.0)));
    assert_eq!(t.get_gap(n, YG_GUTTER_COLUMN).unit, YG_UNIT_POINT);
    assert_eq!(t.get_gap(n, YG_GUTTER_ROW).unit, YG_UNIT_PERCENT);
    assert_eq!(t.get_flex_grow(n), ZERO_BITS);
    t.set_flex_grow(n, bits(2.0));
    assert_eq!(t.get_flex_grow(n), bits(2.0));
    assert_eq!(t.get_flex(n), NAN_BITS);
    t.set_flex(n, bits(1.0));
    assert_eq!(t.get_flex(n), bits(1.0));
    t.set_aspect_ratio(n, f32::NAN.to_bits());
    assert_eq!(t.get_aspect_ratio(n), NAN_BITS);
    t.set_aspect_ratio(n, bits(1.5));
    assert_eq!(t.get_aspect_ratio(n), bits(1.5));
    t.set_grid_placement(n, PlacementKind::ColumnStart, Placement::Line(2));
    assert_eq!(t.get_grid_placement(n, PlacementKind::ColumnStart), 2);
    t.set_grid_placement(n, PlacementKind::RowEnd, Placement::Span(3));
    assert_eq!(t.get_grid_placement(n, PlacementKind::RowEnd), 0);
    t.set_direction(n, YG_DIRECTION_RTL);
    assert_eq!(t.get_direction(n), YG_DIRECTION_RTL);
    t.set_measure_func(n, true);
    assert_eq!(t.data(n).node_type, YG_NODE_TYPE_TEXT);
    t.set_measure_func(n, false);
    assert_eq!(t.data(n).node_type, YG_NODE_TYPE_DEFAULT);
    let tracks = vec![Track { min: Length::Auto, max: Length::Fr(bits(1.0)) }];
    t.set_grid_tracks(n, TrackListKind::TemplateColumns, &tracks);
    assert_eq!(t.grid(n).columns, tracks);
    let other = t.new_node(0);
    t.copy_style(other, n);
    assert_eq!(t.get_flex_direction(other), YG_FLEX_DIRECTION_ROW_REVERSE);
    assert_eq!(t.grid(other).columns, tracks);
    assert_eq!(t.get_direction(other), YG_DIRECTION_RTL);
}

#[test]
fn flex_factors_resolve_like_yoga() {
    let mut t = NodeTree::new();
    let root = t.new_node(0);
    let child = t.new_node(0);
    t.insert_child(root, child, 0);
    t.set_flex(child, bits(2.0));
    let d = t.data(child);
    assert_eq!(resolve_flex_grow(&d, true), bits(2.0));
    assert_eq!(resolve_flex_grow(&d, false), ZERO_BITS);
    assert_eq!(resolve_flex_shrink(&d, true, false), ZERO_BITS);
    assert_eq!(resolve_flex_shrink(&d, true, true), ONE_BITS);
    assert_eq!(resolve_flex_basis(&d, false), Length::Points(ZERO_BITS));
    assert_eq!(resolve_flex_basis(&d, true), Length::Auto);
    t.set_flex(child, bits(-3.0));
    let d = t.data(child);
    assert_eq!(resolve_flex_grow(&d, true), ZERO_BITS);
    assert_eq!(resolve_flex_shrink(&d, true, false), bits(3.0));
    assert_eq!(resolve_flex_basis(&d, false), Length::Auto);
}

#[test]
fn layout_plan_flattens_contents_nodes() {
    let mut t = NodeTree::new();
    let root = t.new_node(0);
    let wrapper = t.new_node(0);
    let a = t.new_node(0);
    let b = t.new_node(0);
    t.insert_child(root, wrapper, 0);
    t.insert_child(wrapper, a, 0);
    t.insert_child(wrapper, b, 1);
    t.set_display(wrapper, YG_DISPLAY_CONTENTS);
    t.set_flex_direction(root, YG_FLEX_DIRECTION_ROW);
    t.set_direction(root, YG_DIRECTION_RTL);
    let lp = t.prepare_layout(root, YG_DIRECTION_LTR).unwrap();
    let nodes: Vec<usize> = lp.plan.entries.iter().map(|e| e.node).collect();
    assert_eq!(nodes, vec![a, b, root]);
    assert_eq!(lp.plan.entries[2].children, vec![0, 1]);
    assert_eq!(lp.root_ids, vec![2]);
    assert_eq!(lp.plan.contents, vec![wrapper]);
    assert_eq!(lp.plan.entries[2].style.style.flex_direction, FlexDirection::RowReverse);
    assert_eq!(t.data(a).layout_direction, YG_DIRECTION_RTL);
    t.commit_layout(&lp.plan, YG_DIRECTION_LTR);
    assert_eq!(t.data(wrapper).layout_direction, YG_DIRECTION_LTR);
    assert!(!t.data(root).is_dirty);
}

#[test]
fn children_lists_with_a_cycle_give_no_layout_plan() {
    let mut t = NodeTree::new();
    let p1 = t.new_node(0);
    let p2 = t.new_node(0);
    let c = t.new_node(0);
    let d = t.new_node(0);
    t.insert_child(p1, c, 0);
    t.insert_child(p2, d, 0);
    t.swap_child(p2, c, 0);
    assert_eq!(t.get_child(p1, 0), Some(c));
    assert_eq!(t.owner(c), Some(p2));
    assert!(!t.chain_contains(c, p1));
    t.insert_child(c, p1, 0);
    assert_eq!(t.get_child(c, 0), Some(p1));
    assert!(t.prepare_layout(p1, YG_DIRECTION_LTR).is_none());
    assert!(t.prepare_layout(d, YG_DIRECTION_LTR).is_some());
}

#[test]
fn containing_block_skips_static_owners() {
    let mut t = NodeTree::new();
    let root = t.new_node(0);
    let mid = t.new_node(0);
    let leaf = t.new_node(0);
    t.insert_child(root, mid, 0);
    t.insert_child(mid, leaf, 0);
    t.set_position_type(mid, YG_POSITION_TYPE_STATIC);
    assert_eq!(t.absolute_containing_block(mid), root);
    t.set_always_forms_containing_block(mid, true);
    assert_eq!(t.absolute_containing_block(mid), mid);
    assert_eq!(t.absolute_containing_block(leaf), leaf);
    let _ = YG_DIRECTION_LTR;
}
