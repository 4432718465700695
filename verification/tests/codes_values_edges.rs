use yoga_core::codes::{
    flip_align_content_for_rtl, flip_align_items_for_rtl, map_align, map_align_content, map_box_sizing, map_display,
    map_flex_direction, map_justify, map_overflow, map_position_type, map_wrap, unmap_align, unmap_align_content,
    unmap_box_sizing, unmap_display, unmap_flex_direction, unmap_justify, unmap_overflow, unmap_position_type,
    unmap_wrap, AlignContent, AlignItems, BoxSizing, Display, FlexDirection, FlexWrap, Overflow, Position,
    YG_ALIGN_AUTO, YG_ALIGN_BASELINE, YG_ALIGN_END, YG_ALIGN_SPACE_BETWEEN, YG_ALIGN_STRETCH, YG_DIRECTION_INHERIT,
    YG_DIRECTION_LTR, YG_DIRECTION_RTL, YG_EDGE_ALL, YG_EDGE_BOTTOM, YG_EDGE_END, YG_EDGE_HORIZONTAL, YG_EDGE_LEFT,
    YG_EDGE_RIGHT, YG_EDGE_START, YG_EDGE_TOP, YG_EDGE_VERTICAL, YG_JUSTIFY_FLEX_START, YG_JUSTIFY_SPACE_EVENLY,
    YG_UNIT_AUTO, YG_UNIT_FIT_CONTENT, YG_UNIT_MAX_CONTENT, YG_UNIT_PERCENT, YG_UNIT_POINT, YG_UNIT_UNDEFINED,
};
use yoga_core::edges::{
    choose_edge_value, edge_to_rect_indexes, get_lp, get_lpa, layout_edge_side, resolve_direction,
    resolve_inset_rect, resolve_margin_rect, set_dim, set_rect_edge, EdgeValues, Rect, SizePair,
};
use yoga_core::values::{
    compact_to_yg_value, dim_fit_content, dim_max_content, dim_stretch, f32_bits_is_nan, f32_bits_is_negative,
    f32_bits_is_positive, f32_bits_negate, placement_from_line_index, placement_from_span, placement_line_value,
    track_auto, track_fr, track_minmax, track_percent, track_points, Length, Placement, Track, TrackList,
    TrackValue, INFINITY_BITS, NAN_BITS,
};

#[test]
fn align_codes_round_trip() {
    for code in [1, 2, 3, 4, 5, 9, 10] {
        let v = map_align(code).unwrap();
        assert_eq!(unmap_align(Some(v), true), code);
    }
    assert_eq!(map_align(YG_ALIGN_AUTO), None);
    assert_eq!(map_align(YG_ALIGN_SPACE_BETWEEN), None);
    assert_eq!(map_align(42), None);
    assert_eq!(unmap_align(None, true), YG_ALIGN_AUTO);
    assert_eq!(unmap_align(None, false), YG_ALIGN_STRETCH);
    assert_eq!(map_align(YG_ALIGN_BASELINE), Some(AlignItems::Baseline));
    assert_eq!(map_align(YG_ALIGN_END), Some(AlignItems::End));
}

#[test]
fn content_and_justify_codes_round_trip() {
    for code in [1, 2, 3, 4, 6, 7, 8, 9, 10] {
        let v = map_align_content(code).unwrap();
        assert_eq!(unmap_align_content(Some(v), false), code);
    }
    assert_eq!(map_align_content(YG_ALIGN_BASELINE), None);
    assert_eq!(map_align_content(YG_ALIGN_AUTO), None);
    assert_eq!(unmap_align_content(None, false), 1);
    for code in 1..=9 {
        let v = map_justify(code).unwrap();
        assert_eq!(unmap_justify(Some(v), false), code);
    }
    assert_eq!(map_justify(YG_JUSTIFY_SPACE_EVENLY), Some(AlignContent::SpaceEvenly));
    assert_eq!(unmap_justify(None, false), YG_JUSTIFY_FLEX_START);
    assert_eq!(map_justify(0), None);
}

#[test]
fn other_codes() {
    for code in 0..=3 {
        assert_eq!(unmap_flex_direction(map_flex_direction(code)), code);
    }
    assert_eq!(map_flex_direction(17), FlexDirection::Row);
    for code in 0..=2 {
        assert_eq!(unmap_wrap(map_wrap(code)), code);
    }
    assert_eq!(map_wrap(-1), FlexWrap::NoWrap);
    assert_eq!(map_position_type(2), Position::Absolute);
    assert_eq!(map_position_type(0), Position::Relative);
    assert_eq!(unmap_position_type(Position::Relative), 1);
    assert_eq!(map_display(1), Display::Off);
    assert_eq!(map_display(3), Display::Grid);
    assert_eq!(map_display(2), Display::Flex);
    assert_eq!(unmap_display(Display::Block), 0);
    assert_eq!(map_overflow(2), Overflow::Scroll);
    assert_eq!(unmap_overflow(Overflow::Clip), 0);
    assert_eq!(map_box_sizing(1), BoxSizing::ContentBox);
    assert_eq!(map_box_sizing(5), BoxSizing::BorderBox);
    assert_eq!(unmap_box_sizing(BoxSizing::ContentBox), 1);
}

#[test]
fn flips_are_involutions() {
    assert_eq!(flip_align_items_for_rtl(Some(AlignItems::Start)), Some(AlignItems::End));
    assert_eq!(flip_align_items_for_rtl(Some(AlignItems::FlexEnd)), Some(AlignItems::FlexStart));
    assert_eq!(flip_align_items_for_rtl(Some(AlignItems::Center)), Some(AlignItems::Center));
    assert_eq!(flip_align_items_for_rtl(None), None);
    let v = Some(AlignContent::FlexStart);
    assert_eq!(flip_align_content_for_rtl(flip_align_content_for_rtl(v)), v);
    assert_eq!(flip_align_content_for_rtl(v), Some(AlignContent::FlexEnd));
}

#[test]
fn float_bit_predicates_agree_with_f32() {
    let samples = [0.0f32, -0.0, 1.0, -1.0, 2.5, -3.75, f32::INFINITY, f32::NEG_INFINITY, f32::NAN, -f32::NAN, f32::MIN_POSITIVE];
    for x in samples {
        let b = x.to_bits();
        assert_eq!(f32_bits_is_nan(b), x.is_nan());
        assert_eq!(f32_bits_is_positive(b), x > 0.0);
        assert_eq!(f32_bits_is_negative(b), x < 0.0);
        assert_eq!(f32_bits_negate(b), (-x).to_bits());
    }
    assert_eq!(NAN_BITS, f32::NAN.to_bits());
    assert_eq!(INFINITY_BITS, f32::INFINITY.to_bits());
}

#[test]
fn lengths_read_back_as_yg_values() {
    let p = compact_to_yg_value(Length::Points(12.5f32.to_bits()));
    assert_eq!((f32::from_bits(p.value), p.unit), (12.5, YG_UNIT_POINT));
    let q = compact_to_yg_value(Length::Percent(0.25f32.to_bits()));
    assert_eq!((f32::from_bits(q.value), q.unit), (0.25, YG_UNIT_PERCENT));
    let a = compact_to_yg_value(Length::Auto);
    assert!(f32::from_bits(a.value).is_nan());
    assert_eq!(a.unit, YG_UNIT_AUTO);
    assert_eq!(compact_to_yg_value(dim_max_content()).unit, YG_UNIT_MAX_CONTENT);
    assert_eq!(compact_to_yg_value(dim_fit_content()).unit, YG_UNIT_FIT_CONTENT);
    assert_eq!(dim_stretch(), Length::Auto);
    let fr = compact_to_yg_value(Length::Fr(2.0f32.to_bits()));
    assert_eq!((f32::from_bits(fr.value), fr.unit), (2.0, YG_UNIT_UNDEFINED));
    assert_eq!(compact_to_yg_value(Length::MinContent).unit, YG_UNIT_UNDEFINED);
}

#[test]
fn grid_placements_and_tracks() {
    assert_eq!(placement_line_value(placement_from_line_index(3)), 3);
    assert_eq!(placement_line_value(placement_from_line_index(-2)), -2);
    assert_eq!(placement_from_line_index(70000), Placement::Line(70000i32 as i16));
    assert_eq!(placement_line_value(placement_from_span(2)), 0);
    assert_eq!(placement_from_span(2), Placement::Span(2));
    assert_eq!(placement_line_value(Placement::Auto), 0);
    let ten = 10.0f32.to_bits();
    let tp = track_points(ten);
    assert_eq!(tp, TrackValue::Single(Track { min: Length::Points(ten), max: Length::Points(ten) }));
    let mm = track_minmax(Some(track_auto()), Some(track_fr(ten)));
    assert_eq!(mm, TrackValue::MinMax(Length::Auto, Length::Fr(ten)));
    let mm2 = track_minmax(Some(track_percent(ten)), None);
    assert_eq!(mm2, TrackValue::MinMax(Length::Percent(ten), Length::Auto));
    let mut list = TrackList::new();
    list.add_track(tp);
    list.add_track(mm);
    assert_eq!(list.tracks, vec![Track { min: Length::Points(ten), max: Length::Points(ten) }, Track { min: Length::Auto, max: Length::Fr(ten) }]);
}

fn pts(x: f32) -> Length {
    Length::Points(x.to_bits())
}

#[test]
fn edge_values_set_and_get() {
    let mut e = EdgeValues::new();
    assert_eq!(e.get_exact(YG_EDGE_LEFT), None);
    e.set(YG_EDGE_START, pts(4.0));
    e.set(9, pts(1.0));
    e.set(-1, pts(1.0));
    assert_eq!(e.get_exact(YG_EDGE_START), Some(pts(4.0)));
    assert_eq!(e.get_exact(YG_EDGE_LEFT), None);
    assert_eq!(e.get_exact(9), None);
}

#[test]
fn edge_rect_indexes() {
    assert_eq!(edge_to_rect_indexes(YG_EDGE_START, YG_DIRECTION_LTR), [Some(0), None, None, None]);
    assert_eq!(edge_to_rect_indexes(YG_EDGE_START, YG_DIRECTION_RTL), [None, None, Some(2), None]);
    assert_eq!(edge_to_rect_indexes(YG_EDGE_END, YG_DIRECTION_RTL), [Some(0), None, None, None]);
    assert_eq!(edge_to_rect_indexes(YG_EDGE_VERTICAL, YG_DIRECTION_LTR), [None, Some(1), None, Some(3)]);
    assert_eq!(edge_to_rect_indexes(YG_EDGE_ALL, YG_DIRECTION_LTR), [Some(0), Some(1), Some(2), Some(3)]);
    assert_eq!(edge_to_rect_indexes(12, YG_DIRECTION_LTR), [None, None, None, None]);
    let mut r = Rect { left: Length::Auto, top: Length::Auto, right: Length::Auto, bottom: Length::Auto };
    set_rect_edge(&mut r, YG_EDGE_HORIZONTAL, YG_DIRECTION_LTR, pts(2.0));
    assert_eq!((r.left, r.top, r.right, r.bottom), (pts(2.0), Length::Auto, pts(2.0), Length::Auto));
    assert_eq!(get_lpa(&r, YG_EDGE_END, YG_DIRECTION_RTL), pts(2.0));
    assert_eq!(get_lpa(&r, YG_EDGE_ALL, YG_DIRECTION_LTR), Length::Auto);
    assert_eq!(get_lp(&r, YG_EDGE_VERTICAL, YG_DIRECTION_LTR), Length::Points(NAN_BITS));
    let mut s = SizePair { width: Length::Auto, height: Length::Auto };
    set_dim(&mut s, YG_EDGE_TOP, pts(5.0));
    assert_eq!((s.width, s.height), (Length::Auto, pts(5.0)));
    set_dim(&mut s, YG_EDGE_ALL, pts(6.0));
    assert_eq!((s.width, s.height), (pts(6.0), pts(6.0)));
}

#[test]
fn edge_choice_follows_precedence() {
    let mut e = EdgeValues::new();
    e.set(YG_EDGE_ALL, pts(1.0));
    e.set(YG_EDGE_HORIZONTAL, pts(2.0));
    e.set(YG_EDGE_LEFT, pts(3.0));
    e.set(YG_EDGE_END, pts(4.0));
    assert_eq!(choose_edge_value(&e, YG_EDGE_LEFT, YG_DIRECTION_LTR, Length::Auto), pts(3.0));
    assert_eq!(choose_edge_value(&e, YG_EDGE_LEFT, YG_DIRECTION_RTL, Length::Auto), pts(4.0));
    assert_eq!(choose_edge_value(&e, YG_EDGE_RIGHT, YG_DIRECTION_LTR, Length::Auto), pts(4.0));
    assert_eq!(choose_edge_value(&e, YG_EDGE_RIGHT, YG_DIRECTION_RTL, Length::Auto), pts(2.0));
    assert_eq!(choose_edge_value(&e, YG_EDGE_TOP, YG_DIRECTION_LTR, Length::Auto), pts(1.0));
    assert_eq!(choose_edge_value(&e, YG_EDGE_START, YG_DIRECTION_LTR, Length::Auto), Length::Auto);
    let inset = resolve_inset_rect(&EdgeValues::new(), YG_DIRECTION_LTR);
    assert_eq!(inset.left, Length::Auto);
    let margin = resolve_margin_rect(&e, YG_DIRECTION_RTL);
    assert_eq!((margin.left, margin.top, margin.right, margin.bottom), (pts(4.0), pts(1.0), pts(2.0), pts(1.0)));
}

#[test]
fn direction_resolution_and_layout_sides() {
    assert_eq!(resolve_direction(YG_DIRECTION_INHERIT, YG_DIRECTION_INHERIT), YG_DIRECTION_LTR);
    assert_eq!(resolve_direction(YG_DIRECTION_INHERIT, YG_DIRECTION_RTL), YG_DIRECTION_RTL);
    assert_eq!(resolve_direction(YG_DIRECTION_LTR, YG_DIRECTION_RTL), YG_DIRECTION_LTR);
    assert_eq!(layout_edge_side(YG_EDGE_START, YG_DIRECTION_RTL), Some(2));
    assert_eq!(layout_edge_side(YG_EDGE_END, YG_DIRECTION_LTR), Some(2));
    assert_eq!(layout_edge_side(YG_EDGE_BOTTOM, YG_DIRECTION_LTR), Some(3));
    assert_eq!(layout_edge_side(YG_EDGE_HORIZONTAL, YG_DIRECTION_LTR), None);
}
