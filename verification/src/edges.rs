//! Yoga edges: per-edge style values, and how logical and shorthand edges
//! resolve onto the four physical sides of a box.
use vstd::prelude::*;
use crate::codes::{
    YG_DIRECTION_INHERIT, YG_DIRECTION_LTR, YG_DIRECTION_RTL, YG_EDGE_ALL, YG_EDGE_BOTTOM,
    YG_EDGE_END, YG_EDGE_HORIZONTAL, YG_EDGE_LEFT, YG_EDGE_RIGHT, YG_EDGE_START, YG_EDGE_TOP,
    YG_EDGE_VERTICAL,
};
use crate::values::{Length, NAN_BITS, ZERO_BITS};

verus! {

/// The number of Yoga edges (left, top, right, bottom, start, end,
/// horizontal, vertical, all).
pub const YOGA_EDGE_COUNT: usize = 9;

/// The value set on each Yoga edge, if any.
#[derive(Clone, Copy)]
pub struct EdgeValues {
    pub values: [Option<Length>; 9],
}

/// Edge values with nothing set.
pub open spec fn no_edges() -> EdgeValues {
    EdgeValues { values: vstd::array::spec_array_fill_for_copy_type::<Option<Length>, 9>(None) }
}

/// Edge values with `value` set on `edge`; a code that names no edge changes nothing.
pub open spec fn edges_with(e: EdgeValues, edge: i32, value: Length) -> EdgeValues {
    if 0 <= edge < 9 {
        EdgeValues { values: vstd::array::spec_array_update(e.values, edge as int, Some(value)) }
    } else {
        e
    }
}

impl EdgeValues {
    /// The value set on `edge`, or `None` when none is set or `edge` is no edge.
    pub open spec fn exact(self, edge: i32) -> Option<Length> {
        if 0 <= edge < 9 {
            self.values@[edge as int]
        } else {
            None
        }
    }

    /// Edge values with nothing set.
    pub fn new() -> (r: EdgeValues)
        ensures
            r == no_edges(),
            forall|e: i32| #[trigger] r.exact(e) == None::<Length>,
    {
        let r = EdgeValues { values: [None; 9] };
        assert forall|e: i32| #[trigger] r.exact(e) == None::<Length> by {
            broadcast use vstd::array::axiom_spec_array_fill_for_copy_type;

            if 0 <= e < 9 {
                assert(r.values@[e as int] == None::<Length>);
            }
        }
        r
    }

    /// Sets the value of `edge`; a code that names no edge changes nothing.
    pub fn set(&mut self, edge: i32, value: Length)
        ensures
            *final(self) == edges_with(*old(self), edge, value),
            forall|e: i32| #[trigger] final(self).exact(e) == if e == edge && 0 <= edge < 9 {
                Some(value)
            } else {
                old(self).exact(e)
            },
    {
        if 0 <= edge && edge < 9 {
            self.values[edge as usize] = Some(value);
            proof {
                broadcast use vstd::array::axiom_spec_array_update;
            }
        }
    }

    /// The value set on `edge`.
    pub fn get_exact(&self, edge: i32) -> (r: Option<Length>)
        ensures
            r == self.exact(edge),
    {
        if 0 <= edge && edge < 9 {
            self.values[edge as usize]
        } else {
            None
        }
    }
}

/// The four sides of a box.
#[derive(Clone, Copy, Debug, PartialEq, Eq, Structural)]
pub struct Rect {
    pub left: Length,
    pub top: Length,
    pub right: Length,
    pub bottom: Length,
}

/// A width and a height.
#[derive(Clone, Copy, Debug, PartialEq, Eq, Structural)]
pub struct SizePair {
    pub width: Length,
    pub height: Length,
}

/// Whether setting `edge` under `direction` writes the side with index
/// `side` (0 left, 1 top, 2 right, 3 bottom). Start is left and end is right,
/// except under right-to-left direction, where they trade places.
pub open spec fn edge_touches_side(edge: i32, direction: i32, side: int) -> bool {
    let rtl = direction == YG_DIRECTION_RTL;
    if side == 0 {
        edge == YG_EDGE_LEFT || (edge == YG_EDGE_START && !rtl) || (edge == YG_EDGE_END && rtl)
            || edge == YG_EDGE_HORIZONTAL || edge == YG_EDGE_ALL
    } else if side == 1 {
        edge == YG_EDGE_TOP || edge == YG_EDGE_VERTICAL || edge == YG_EDGE_ALL
    } else if side == 2 {
        edge == YG_EDGE_RIGHT || (edge == YG_EDGE_START && rtl) || (edge == YG_EDGE_END && !rtl)
            || edge == YG_EDGE_HORIZONTAL || edge == YG_EDGE_ALL
    } else if side == 3 {
        edge == YG_EDGE_BOTTOM || edge == YG_EDGE_VERTICAL || edge == YG_EDGE_ALL
    } else {
        false
    }
}

/// For each side (left, top, right, bottom), `Some(side)` when setting `edge`
/// under `direction` writes that side, and `None` otherwise.
pub fn edge_to_rect_indexes(edge: i32, direction: i32) -> (r: [Option<usize>; 4])
    ensures
        forall|i: int|
            0 <= i < 4 ==> #[trigger] r@[i] == if edge_touches_side(edge, direction, i) {
                Some(i as usize)
            } else {
                None
            },
{
    let r = match edge {
        YG_EDGE_LEFT => [Some(0), None, None, None],
        YG_EDGE_TOP => [None, Some(1), None, None],
        YG_EDGE_RIGHT => [None, None, Some(2), None],
        YG_EDGE_BOTTOM => [None, None, None, Some(3)],
        YG_EDGE_START => {
            if direction == YG_DIRECTION_RTL {
                [None, None, Some(2), None]
            } else {
                [Some(0), None, None, None]
            }
        },
        YG_EDGE_END => {
            if direction == YG_DIRECTION_RTL {
                [Some(0), None, None, None]
            } else {
                [None, None, Some(2), None]
            }
        },
        YG_EDGE_HORIZONTAL => [Some(0), None, Some(2), None],
        YG_EDGE_VERTICAL => [None, Some(1), None, Some(3)],
        YG_EDGE_ALL => [Some(0), Some(1), Some(2), Some(3)],
        _ => [None, None, None, None],
    };
    assert(r@[0] == r[0] && r@[1] == r[1] && r@[2] == r[2] && r@[3] == r[3]);
    r
}

/// Writes `value` on every side of `rect` that `edge` covers under `direction`.
pub fn set_rect_edge(rect: &mut Rect, edge: i32, direction: i32, value: Length)
    ensures
        final(rect).left == if edge_touches_side(edge, direction, 0) { value } else { old(rect).left },
        final(rect).top == if edge_touches_side(edge, direction, 1) { value } else { old(rect).top },
        final(rect).right == if edge_touches_side(edge, direction, 2) { value } else { old(rect).right },
        final(rect).bottom == if edge_touches_side(edge, direction, 3) { value } else { old(rect).bottom },
{
    let idx = edge_to_rect_indexes(edge, direction);
    assert(idx@[0] == idx[0] && idx@[1] == idx[1] && idx@[2] == idx[2] && idx@[3] == idx[3]);
    if idx[0].is_some() {
        rect.left = value;
    }
    if idx[1].is_some() {
        rect.top = value;
    }
    if idx[2].is_some() {
        rect.right = value;
    }
    if idx[3].is_some() {
        rect.bottom = value;
    }
}

/// Writes `value` on the width for a horizontal edge, on the height for a
/// vertical one, and on both for `all`.
pub fn set_dim(size: &mut SizePair, edge: i32, value: Length)
    ensures
        final(size).width == if edge == YG_EDGE_LEFT || edge == YG_EDGE_RIGHT || edge == YG_EDGE_START
            || edge == YG_EDGE_END || edge == YG_EDGE_HORIZONTAL || edge == YG_EDGE_ALL {
            value
        } else {
            old(size).width
        },
        final(size).height == if edge == YG_EDGE_TOP || edge == YG_EDGE_BOTTOM || edge
            == YG_EDGE_VERTICAL || edge == YG_EDGE_ALL {
            value
        } else {
            old(size).height
        },
{
    match edge {
        YG_EDGE_LEFT | YG_EDGE_RIGHT | YG_EDGE_START | YG_EDGE_END | YG_EDGE_HORIZONTAL => {
            size.width = value;
        },
        YG_EDGE_TOP | YG_EDGE_BOTTOM | YG_EDGE_VERTICAL => {
            size.height = value;
        },
        YG_EDGE_ALL => {
            size.width = value;
            size.height = value;
        },
        _ => {},
    }
}

/// The single side that `edge` names under `direction` (0 left, 1 top,
/// 2 right, 3 bottom), or `None` for the shorthand edges and for codes that
/// name no edge.
pub open spec fn edge_side(edge: i32, direction: i32) -> Option<int> {
    let rtl = direction == YG_DIRECTION_RTL;
    if edge == YG_EDGE_LEFT {
        Some(0)
    } else if edge == YG_EDGE_TOP {
        Some(1)
    } else if edge == YG_EDGE_RIGHT {
        Some(2)
    } else if edge == YG_EDGE_BOTTOM {
        Some(3)
    } else if edge == YG_EDGE_START {
        if rtl { Some(2) } else { Some(0) }
    } else if edge == YG_EDGE_END {
        if rtl { Some(0) } else { Some(2) }
    } else {
        None
    }
}

/// The side of a rectangle with the given index.
pub open spec fn rect_side(rect: Rect, side: int) -> Length {
    if side == 0 {
        rect.left
    } else if side == 1 {
        rect.top
    } else if side == 2 {
        rect.right
    } else {
        rect.bottom
    }
}

/// The side that `edge` names under `direction`, for reading a laid-out box:
/// 0 left, 1 top, 2 right, 3 bottom.
pub fn layout_edge_side(edge: i32, direction: i32) -> (r: Option<usize>)
    ensures
        r == match edge_side(edge, direction) {
            Some(s) => Some(s as usize),
            None => None::<usize>,
        },
{
    match edge {
        YG_EDGE_LEFT => Some(0),
        YG_EDGE_TOP => Some(1),
        YG_EDGE_RIGHT => Some(2),
        YG_EDGE_BOTTOM => Some(3),
        YG_EDGE_START => {
            if direction == YG_DIRECTION_RTL {
                Some(2)
            } else {
                Some(0)
            }
        },
        YG_EDGE_END => {
            if direction == YG_DIRECTION_RTL {
                Some(0)
            } else {
                Some(2)
            }
        },
        _ => None,
    }
}

/// Reads the side of `rect` that `edge` names under `direction`, or
/// `fallback` when `edge` names no single side.
pub fn get_rect_edge(rect: &Rect, edge: i32, direction: i32, fallback: Length) -> (r: Length)
    ensures
        r == match edge_side(edge, direction) {
            Some(s) => rect_side(*rect, s),
            None => fallback,
        },
{
    match edge {
        YG_EDGE_LEFT => rect.left,
        YG_EDGE_TOP => rect.top,
        YG_EDGE_RIGHT => rect.right,
        YG_EDGE_BOTTOM => rect.bottom,
        YG_EDGE_START => {
            if direction == YG_DIRECTION_RTL {
                rect.right
            } else {
                rect.left
            }
        },
        YG_EDGE_END => {
            if direction == YG_DIRECTION_RTL {
                rect.left
            } else {
                rect.right
            }
        },
        _ => fallback,
    }
}

/// Reads a side of an inset or margin rectangle; shorthand edges read as `auto`.
pub fn get_lpa(rect: &Rect, edge: i32, direction: i32) -> (r: Length)
    ensures
        r == match edge_side(edge, direction) {
            Some(s) => rect_side(*rect, s),
            None => Length::Auto,
        },
{
    get_rect_edge(rect, edge, direction, Length::Auto)
}

/// Reads a side of a padding or border rectangle; shorthand edges read as an
/// undefined length.
pub fn get_lp(rect: &Rect, edge: i32, direction: i32) -> (r: Length)
    ensures
        r == match edge_side(edge, direction) {
            Some(s) => rect_side(*rect, s),
            None => Length::Points(NAN_BITS),
        },
{
    get_rect_edge(rect, edge, direction, Length::Points(NAN_BITS))
}

/// The first of two optional values that is set.
pub open spec fn or_else(a: Option<Length>, b: Option<Length>) -> Option<Length> {
    match a {
        Some(_) => a,
        None => b,
    }
}

/// The value of an optional value, or `fallback` when it is unset.
pub open spec fn unwrap_or(a: Option<Length>, fallback: Length) -> Length {
    match a {
        Some(v) => v,
        None => fallback,
    }
}

/// The logical edge value that overrides a horizontal physical side: start
/// for the left side under left-to-right direction and for the right side
/// under right-to-left direction, end in the other two cases, and nothing
/// when the direction is neither.
pub open spec fn logical_override(edges: EdgeValues, physical_edge: i32, direction: i32) -> Option<
    Length,
> {
    if direction == YG_DIRECTION_LTR {
        if physical_edge == YG_EDGE_LEFT {
            edges.exact(YG_EDGE_START)
        } else {
            edges.exact(YG_EDGE_END)
        }
    } else if direction == YG_DIRECTION_RTL {
        if physical_edge == YG_EDGE_LEFT {
            edges.exact(YG_EDGE_END)
        } else {
            edges.exact(YG_EDGE_START)
        }
    } else {
        None
    }
}

/// The value that a physical side takes from a node's edge values: for left
/// and right, the overriding logical edge, then the side itself, then
/// horizontal, then all; for top and bottom, the side, then vertical, then
/// all; `fallback` when none of these is set or the edge is not physical.
pub open spec fn chosen_value(edges: EdgeValues, physical_edge: i32, direction: i32, fallback: Length) -> Length {
    if physical_edge == YG_EDGE_LEFT || physical_edge == YG_EDGE_RIGHT {
        unwrap_or(
            or_else(
                logical_override(edges, physical_edge, direction),
                or_else(
                    edges.exact(physical_edge),
                    or_else(edges.exact(YG_EDGE_HORIZONTAL), edges.exact(YG_EDGE_ALL)),
                ),
            ),
            fallback,
        )
    } else if physical_edge == YG_EDGE_TOP || physical_edge == YG_EDGE_BOTTOM {
        unwrap_or(
            or_else(
                edges.exact(physical_edge),
                or_else(edges.exact(YG_EDGE_VERTICAL), edges.exact(YG_EDGE_ALL)),
            ),
            fallback,
        )
    } else {
        fallback
    }
}

/// The first set value among `candidates`, or `fallback`.
fn first_set(a: Option<Length>, b: Option<Length>, c: Option<Length>, fallback: Length) -> (r: Length)
    ensures
        r == unwrap_or(or_else(a, or_else(b, c)), fallback),
{
    match a {
        Some(v) => v,
        None => match b {
            Some(v) => v,
            None => match c {
                Some(v) => v,
                None => fallback,
            },
        },
    }
}

/// Resolves the value of a physical side from a node's edge values.
pub fn choose_edge_value(edges: &EdgeValues, physical_edge: i32, direction: i32, fallback: Length) -> (r: Length)
    ensures
        r == chosen_value(*edges, physical_edge, direction, fallback),
{
    match physical_edge {
        YG_EDGE_LEFT => {
            if direction == YG_DIRECTION_LTR {
                if let Some(v) = edges.get_exact(YG_EDGE_START) {
                    return v;
                }
            } else if direction == YG_DIRECTION_RTL {
                if let Some(v) = edges.get_exact(YG_EDGE_END) {
                    return v;
                }
            }
            first_set(
                edges.get_exact(YG_EDGE_LEFT),
                edges.get_exact(YG_EDGE_HORIZONTAL),
                edges.get_exact(YG_EDGE_ALL),
                fallback,
            )
        },
        YG_EDGE_RIGHT => {
            if direction == YG_DIRECTION_LTR {
                if let Some(v) = edges.get_exact(YG_EDGE_END) {
                    return v;
                }
            } else if direction == YG_DIRECTION_RTL {
                if let Some(v) = edges.get_exact(YG_EDGE_START) {
                    return v;
                }
            }
            first_set(
                edges.get_exact(YG_EDGE_RIGHT),
                edges.get_exact(YG_EDGE_HORIZONTAL),
                edges.get_exact(YG_EDGE_ALL),
                fallback,
            )
        },
        YG_EDGE_TOP => first_set(
            edges.get_exact(YG_EDGE_TOP),
            edges.get_exact(YG_EDGE_VERTICAL),
            edges.get_exact(YG_EDGE_ALL),
            fallback,
        ),
        YG_EDGE_BOTTOM => first_set(
            edges.get_exact(YG_EDGE_BOTTOM),
            edges.get_exact(YG_EDGE_VERTICAL),
            edges.get_exact(YG_EDGE_ALL),
            fallback,
        ),
        _ => fallback,
    }
}

/// The four physical sides resolved from a node's edge values.
pub open spec fn resolved_rect(edges: EdgeValues, direction: i32, fallback: Length) -> Rect {
    Rect {
        left: chosen_value(edges, YG_EDGE_LEFT, direction, fallback),
        top: chosen_value(edges, YG_EDGE_TOP, direction, fallback),
        right: chosen_value(edges, YG_EDGE_RIGHT, direction, fallback),
        bottom: chosen_value(edges, YG_EDGE_BOTTOM, direction, fallback),
    }
}

/// Resolves all four physical sides, with `fallback` for unset ones.
pub fn resolve_rect(edges: &EdgeValues, direction: i32, fallback: Length) -> (r: Rect)
    ensures
        r == resolved_rect(*edges, direction, fallback),
{
    Rect {
        left: choose_edge_value(edges, YG_EDGE_LEFT, direction, fallback),
        top: choose_edge_value(edges, YG_EDGE_TOP, direction, fallback),
        right: choose_edge_value(edges, YG_EDGE_RIGHT, direction, fallback),
        bottom: choose_edge_value(edges, YG_EDGE_BOTTOM, direction, fallback),
    }
}

/// The inset rectangle: unset sides are `auto`.
pub fn resolve_inset_rect(edges: &EdgeValues, direction: i32) -> (r: Rect)
    ensures
        r == resolved_rect(*edges, direction, Length::Auto),
{
    resolve_rect(edges, direction, Length::Auto)
}

/// The margin rectangle: unset sides are zero.
pub fn resolve_margin_rect(edges: &EdgeValues, direction: i32) -> (r: Rect)
    ensures
        r == resolved_rect(*edges, direction, Length::Points(ZERO_BITS)),
{
    resolve_rect(edges, direction, Length::Points(ZERO_BITS))
}

/// The padding or border rectangle: unset sides are zero.
pub fn resolve_lp_rect(edges: &EdgeValues, direction: i32) -> (r: Rect)
    ensures
        r == resolved_rect(*edges, direction, Length::Points(ZERO_BITS)),
{
    resolve_rect(edges, direction, Length::Points(ZERO_BITS))
}

/// The direction a node lays out in: its own, unless it inherits, in which
/// case its owner's, and left-to-right when that inherits too.
pub open spec fn resolved_direction(node_direction: i32, owner_direction: i32) -> i32 {
    if node_direction == YG_DIRECTION_INHERIT {
        if owner_direction == YG_DIRECTION_INHERIT {
            YG_DIRECTION_LTR
        } else {
            owner_direction
        }
    } else {
        node_direction
    }
}

/// Resolves a node's direction against its owner's.
pub fn resolve_direction(node_direction: i32, owner_direction: i32) -> (r: i32)
    ensures
        r == resolved_direction(node_direction, owner_direction),
{
    if node_direction == YG_DIRECTION_INHERIT {
        if owner_direction == YG_DIRECTION_INHERIT {
            YG_DIRECTION_LTR
        } else {
            owner_direction
        }
    } else {
        node_direction
    }
}

/// A resolved direction never inherits.
pub proof fn lemma_resolved_direction_is_concrete(node_direction: i32, owner_direction: i32)
    ensures
        resolved_direction(node_direction, owner_direction) != YG_DIRECTION_INHERIT,
        node_direction != YG_DIRECTION_INHERIT ==> resolved_direction(node_direction, owner_direction)
            == node_direction,
{
}

/// Setting an edge and reading it back gives the value set; the other edges
/// keep their values.
pub proof fn lemma_edges_set_get(e: EdgeValues, edge: i32, value: Length, other: i32)
    requires
        0 <= edge < 9,
        other != edge,
    ensures
        edges_with(e, edge, value).exact(edge) == Some(value),
        edges_with(e, edge, value).exact(other) == e.exact(other),
{
    broadcast use vstd::array::axiom_spec_array_update;
}

/// Start and end name opposite sides, and swapping the direction between
/// left-to-right and right-to-left swaps them.
pub proof fn lemma_start_end_mirror()
    ensures
        edge_side(YG_EDGE_START, YG_DIRECTION_LTR) == Some(0int),
        edge_side(YG_EDGE_END, YG_DIRECTION_LTR) == Some(2int),
        edge_side(YG_EDGE_START, YG_DIRECTION_RTL) == edge_side(YG_EDGE_END, YG_DIRECTION_LTR),
        edge_side(YG_EDGE_END, YG_DIRECTION_RTL) == edge_side(YG_EDGE_START, YG_DIRECTION_LTR),
{
}

/// Writing a rectangle through an edge that names a single side and reading
/// the same edge back gives the written value.
pub proof fn lemma_set_then_get_rect_edge(rect: Rect, edge: i32, direction: i32, value: Length, after: Rect)
    requires
        edge_side(edge, direction) is Some,
        after.left == if edge_touches_side(edge, direction, 0) { value } else { rect.left },
        after.top == if edge_touches_side(edge, direction, 1) { value } else { rect.top },
        after.right == if edge_touches_side(edge, direction, 2) { value } else { rect.right },
        after.bottom == if edge_touches_side(edge, direction, 3) { value } else { rect.bottom },
    ensures
        rect_side(after, edge_side(edge, direction)->0) == value,
{
}

/// A physical side takes the value set on it unless an overriding logical
/// edge (for left and right) is set; and an edge value set on `all` reaches
/// every side that has nothing more specific.
pub proof fn lemma_choose_precedence(edges: EdgeValues, physical_edge: i32, direction: i32, fallback: Length)
    requires
        physical_edge == YG_EDGE_LEFT || physical_edge == YG_EDGE_TOP || physical_edge == YG_EDGE_RIGHT
            || physical_edge == YG_EDGE_BOTTOM,
    ensures
        forall|v: Length|
            edges.exact(physical_edge) == Some(v) && ((physical_edge == YG_EDGE_TOP || physical_edge
                == YG_EDGE_BOTTOM) || logical_override(edges, physical_edge, direction) is None)
                ==> chosen_value(edges, physical_edge, direction, fallback) == v,
        forall|v: Length|
            edges.exact(YG_EDGE_ALL) == Some(v) && edges.exact(physical_edge) is None && edges.exact(
                YG_EDGE_HORIZONTAL,
            ) is None && edges.exact(YG_EDGE_VERTICAL) is None && logical_override(
                edges,
                physical_edge,
                direction,
            ) is None ==> chosen_value(edges, physical_edge, direction, fallback) == v,
{
}

} // verus!
