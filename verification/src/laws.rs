//! Properties of the library as a whole: what marking dirty does along the
//! owner chain, what inserting, removing and setting children and freeing a
//! node do, and that every style property reads back as it was set.
use vstd::prelude::*;
use crate::codes::{
    align_items_code, flex_direction_code, wrap_code, YG_ALIGN_AUTO, YG_ALIGN_BASELINE, YG_ALIGN_CENTER, YG_ALIGN_END,
    YG_ALIGN_FLEX_END, YG_ALIGN_FLEX_START, YG_ALIGN_START, YG_ALIGN_STRETCH, YG_JUSTIFY_END, YG_JUSTIFY_FLEX_START,
};
use crate::codes::{align_items_from_code, flex_direction_from_code, justify_from_code, wrap_from_code};
use crate::edges::{edges_with, lemma_edges_set_get, EdgeValues};
use crate::node_style::{
    align_reading, dimension_of, edge_reading, edge_values_of, flex_grow_reading, justify_content_reading,
    placement_of, with_dimension, with_edge_values, with_placement, DimensionKind, EdgeKind, PlacementKind,
};
use crate::style::NodeStyle;
use crate::tree::{
    attached, chain, detached, first_index, inserted, inserted_all, lemma_chain_facts, lemma_chain_unfold,
    lemma_first_index, marked, newly_dirtied, orphaned, released, restyled, well_formed, with_data, NodeData, TreeView,
};
use crate::values::{placement_line_of, yg_value_of, Length, Placement};
use crate::codes::{
    AlignContent, AlignItems, FlexDirection, FlexWrap, YG_DIRECTION_LTR, YG_DIRECTION_RTL, YG_EDGE_ALL,
    YG_EDGE_BOTTOM, YG_EDGE_END, YG_EDGE_HORIZONTAL, YG_EDGE_LEFT, YG_EDGE_RIGHT, YG_EDGE_START, YG_EDGE_TOP,
    YG_EDGE_VERTICAL, YG_GUTTER_COLUMN, YG_GUTTER_ROW, YG_POSITION_TYPE_STATIC,
};
use crate::edges::chosen_value;
use crate::layout_plan::{first_containing_block, resolved_flex_basis, resolved_flex_grow, resolved_flex_shrink};
use crate::node_style::{flex_shrink_reading, gap_reading, with_gap};
use crate::placement::{absolute_alignment, horizontal_placement, vertical_placement, AxisAlign, HorizontalPlacement, VerticalPlacement};
use crate::values::{is_negative_bits, is_positive_bits, negated_bits, ONE_BITS, ZERO_BITS};

verus! {

/// Marking a node dirty marks every node up its owner chain, and changes
/// nothing else.
#[verifier::spinoff_prover]
pub proof fn law_mark_dirty_marks_chain(v: TreeView, n: usize)
    requires
        well_formed(v),
        (n as int) < v.nodes.len(),
    ensures
        forall|x: usize| #[trigger] chain(v, n).contains(x) ==> marked(v, chain(v, n)).nodes[x as int].data.is_dirty,
        forall|j: int|
            0 <= j < v.nodes.len() && !chain(v, n).contains(j as usize) ==> #[trigger] marked(v, chain(v, n)).nodes[j]
                == v.nodes[j],
        marked(v, chain(v, n)).nodes.len() == v.nodes.len(),
{
    lemma_chain_facts(v, n);
    assert forall|x: usize| #[trigger] chain(v, n).contains(x) implies marked(v, chain(v, n)).nodes[x as int].data.is_dirty by {
        let k = choose|k: int| 0 <= k < chain(v, n).len() && chain(v, n)[k] == x;
        assert((chain(v, n)[k] as int) < v.nodes.len());
    }
}

/// The dirtied callbacks to call are nodes of the chain, each at most once,
/// each of them clean before and with a callback.
pub proof fn law_dirtied_callbacks(v: TreeView, s: Seq<usize>)
    requires
        s.no_duplicates(),
    ensures
        newly_dirtied(v, s).no_duplicates(),
        forall|x: usize|
            #[trigger] newly_dirtied(v, s).contains(x) ==> s.contains(x) && !v.nodes[x as int].data.is_dirty
                && v.nodes[x as int].data.has_dirtied_func,
    decreases s.len(),
{
    if s.len() > 0 {
        let p = s.drop_last();
        assert(p.no_duplicates()) by {
            assert forall|a: int, b: int| 0 <= a < p.len() && 0 <= b < p.len() && a != b implies p[a] != p[b] by {
                assert(p[a] == s[a] && p[b] == s[b]);
            }
        }
        law_dirtied_callbacks(v, p);
        let x = s.last();
        let rest = newly_dirtied(v, p);
        let tail: Seq<usize> = if !v.nodes[x as int].data.is_dirty && v.nodes[x as int].data.has_dirtied_func {
            seq![x]
        } else {
            Seq::empty()
        };
        assert(newly_dirtied(v, s) == rest + tail);
        assert(!p.contains(x)) by {
            if p.contains(x) {
                let k = choose|k: int| 0 <= k < p.len() && p[k] == x;
                assert(s[k] == s[s.len() - 1]);
            }
        }
        assert forall|y: usize| #[trigger] newly_dirtied(v, s).contains(y) implies s.contains(y) && !v.nodes[y as int].data.is_dirty
            && v.nodes[y as int].data.has_dirtied_func by {
            let k = choose|k: int| 0 <= k < (rest + tail).len() && (rest + tail)[k] == y;
            if k < rest.len() {
                assert(rest[k] == y);
                assert(rest.contains(y));
                let q = choose|q: int| 0 <= q < p.len() && p[q] == y;
                assert(s[q] == y);
            } else {
                assert(tail[k - rest.len()] == y);
                assert(s[s.len() - 1] == y);
            }
        }
        let all = rest + tail;
        assert forall|a: int, b: int| 0 <= a < all.len() && 0 <= b < all.len() && a != b implies all[a] != all[b] by {
            if a < rest.len() && b < rest.len() {
            } else if a < rest.len() {
                assert(rest.contains(all[a]));
                assert(all[b] == x);
            } else if b < rest.len() {
                assert(rest.contains(all[b]));
                assert(all[a] == x);
            }
        }
    }
}

/// Marking a node dirty a second time calls no dirtied callback: callbacks
/// are called only when a node turns from clean to dirty.
#[verifier::spinoff_prover]
pub proof fn law_mark_dirty_twice_calls_nothing(v: TreeView, n: usize)
    requires
        well_formed(v),
        (n as int) < v.nodes.len(),
    ensures
        newly_dirtied(marked(v, chain(v, n)), chain(v, n)) == Seq::<usize>::empty(),
{
    law_mark_dirty_marks_chain(v, n);
    lemma_chain_facts(v, n);
    lemma_all_dirty_none(marked(v, chain(v, n)), chain(v, n));
}

proof fn lemma_all_dirty_none(w: TreeView, s: Seq<usize>)
    requires
        forall|x: usize| #[trigger] s.contains(x) ==> w.nodes[x as int].data.is_dirty,
    ensures
        newly_dirtied(w, s) == Seq::<usize>::empty(),
    decreases s.len(),
{
    if s.len() > 0 {
        let p = s.drop_last();
        assert forall|x: usize| #[trigger] p.contains(x) implies w.nodes[x as int].data.is_dirty by {
            let k = choose|k: int| 0 <= k < p.len() && p[k] == x;
            assert(s[k] == x);
            assert(s.contains(x));
        }
        lemma_all_dirty_none(w, p);
        assert(s.contains(s.last())) by {
            assert(s[s.len() - 1] == s.last());
        }
        assert(newly_dirtied(w, s) =~= Seq::<usize>::empty());
    }
}

/// After a child is inserted into a node, the node owns it and holds it at
/// the index asked for (or at the end when the index is past the end); it has
/// left the children of its previous owner.
#[verifier::spinoff_prover]
pub proof fn law_insert_child(v: TreeView, node: usize, child: usize, index: usize)
    requires
        well_formed(v),
        (node as int) < v.nodes.len(),
        (child as int) < v.nodes.len(),
        !chain(v, node).contains(child),
    ensures
        ({
            let r = released(v, child);
            let cs = r.nodes[node as int].children;
            let at = if (index as int) <= cs.len() { index as int } else { cs.len() as int };
            let after = inserted(v, node, child, index);
            &&& after.nodes[child as int].owner == Some(node)
            &&& after.nodes[node as int].children == cs.insert(at, child)
            &&& after.nodes[node as int].children[at] == child
        }),
        v.nodes[child as int].owner matches Some(prev) ==> prev != node ==> inserted(v, node, child, index).nodes[prev as int].children
            == v.nodes[prev as int].children.remove(first_index(v.nodes[prev as int].children, child)),
{
    lemma_chain_facts(v, node);
    assert(node != child) by {
        assert(chain(v, node)[0] == node);
    }
    let r = released(v, child);
    let a = attached(r, node, child, index);
    assert(inserted(v, node, child, index).nodes[child as int] == crate::tree::with_dirty(a.nodes[child as int])
        || inserted(v, node, child, index).nodes[child as int] == a.nodes[child as int]);
    assert(inserted(v, node, child, index).nodes[node as int].children == a.nodes[node as int].children);
}

/// Removing a child that a node holds leaves the child with no owner and
/// takes its first occurrence out of the node's children.
#[verifier::spinoff_prover]
pub proof fn law_remove_child(v: TreeView, node: usize, child: usize)
    requires
        well_formed(v),
        (node as int) < v.nodes.len(),
        (child as int) < v.nodes.len(),
        v.nodes[node as int].children.contains(child),
    ensures
        ({
            let d = detached(v, node, child);
            let after = marked(d, chain(d, node));
            let cs = v.nodes[node as int].children;
            &&& after.nodes[child as int].owner is None
            &&& node != child ==> after.nodes[node as int].children == cs.remove(first_index(cs, child))
            &&& after.nodes[node as int].children.len() + 1 == cs.len()
        }),
{
    lemma_first_index(v.nodes[node as int].children, child);
}

/// After a style setter, the node's data is the data set, marked dirty.
#[verifier::spinoff_prover]
pub proof fn law_restyled_data(v: TreeView, node: usize, nd: NodeData)
    requires
        well_formed(v),
        (node as int) < v.nodes.len(),
        (nd.config as int) < v.configs.len(),
    ensures
        restyled(v, node, nd).nodes[node as int].data == (NodeData { is_dirty: true, ..nd }),
{
    let w = with_data(v, node, nd);
    crate::tree::lemma_with_data_view_ok(v, node, nd);
    lemma_chain_facts(w, node);
    assert(chain(w, node)[0] == node);
    assert(chain(w, node).contains(node));
}

/// Codes that name a value read back as set: flex direction (0 to 3), wrap
/// (0 to 2), `justify-content` (1 to 9) and an item alignment (1 to 5, 9 and 10),
/// while `auto` sets nothing and reads back as `auto` for `align-self`.
pub proof fn law_codes_read_back(code: i32)
    ensures
        0 <= code <= 3 ==> flex_direction_code(flex_direction_from_code(code)) == code,
        0 <= code <= 2 ==> wrap_code(wrap_from_code(code)) == code,
        YG_JUSTIFY_FLEX_START <= code <= YG_JUSTIFY_END ==> justify_content_reading(
            NodeStyle { justify_content: justify_from_code(code), ..crate::style::engine_default_style() },
        ) == code,
        (YG_ALIGN_FLEX_START <= code <= YG_ALIGN_BASELINE || code == YG_ALIGN_START || code == YG_ALIGN_END)
            ==> align_reading(align_items_from_code(code), YG_ALIGN_AUTO) == code,
        align_reading(align_items_from_code(YG_ALIGN_AUTO), YG_ALIGN_AUTO) == YG_ALIGN_AUTO,
        align_reading(align_items_from_code(YG_ALIGN_AUTO), YG_ALIGN_STRETCH) == YG_ALIGN_STRETCH,
{
}

/// An edge value reads back as set, and setting it leaves the other edges
/// as they were.
pub proof fn law_edge_value_read_back(d: NodeData, kind: EdgeKind, edge: i32, value: Length, other: i32)
    requires
        0 <= edge < 9,
        other != edge,
    ensures
        edge_reading(edge_values_of(with_edge_values(d, kind, edges_with(edge_values_of(d, kind), edge, value)), kind), edge)
            == yg_value_of(value),
        edge_reading(edge_values_of(with_edge_values(d, kind, edges_with(edge_values_of(d, kind), edge, value)), kind), other)
            == edge_reading(edge_values_of(d, kind), other),
{
    lemma_edges_set_get(edge_values_of(d, kind), edge, value, other);
}

/// A dimension, a grid line placement and `flex-grow` read back as set.
pub proof fn law_style_values_read_back(s: NodeStyle, d: NodeData, kind: DimensionKind, value: Length, pk: PlacementKind, line: i32, grow: u32)
    requires
        i16::MIN <= line <= i16::MAX,
    ensures
        dimension_of(with_dimension(s, kind, value), kind) == value,
        placement_line_of(placement_of(with_placement(s, pk, Placement::Line(line as i16)), pk)) == line,
        flex_grow_reading(NodeData { has_flex_grow: true, style: NodeStyle { flex_grow: grow, ..d.style }, ..d }) == grow,
{
}

/// Inserting distinct nodes one after another, each at the end, into a node
/// that has no children and owns no node leaves it holding exactly those
/// nodes, in order, and owning exactly them.
#[verifier::spinoff_prover]
#[verifier::rlimit(60)]
proof fn lemma_inserted_all_children(w: TreeView, owner: usize, cs: Seq<usize>)
    requires
        w.nodes.len() <= usize::MAX,
        cs.len() <= usize::MAX,
        (owner as int) < w.nodes.len(),
        w.nodes[owner as int].children == Seq::<usize>::empty(),
        forall|x: int| 0 <= x < w.nodes.len() ==> #[trigger] w.nodes[x].owner != Some(owner),
        forall|x: int| 0 <= x < w.nodes.len() ==> (#[trigger] w.nodes[x].owner matches Some(p) ==> (p as int) < w.nodes.len()),
        cs.no_duplicates(),
        forall|i: int| 0 <= i < cs.len() ==> (#[trigger] cs[i] as int) < w.nodes.len(),
    ensures
        inserted_all(w, owner, cs).nodes.len() == w.nodes.len(),
        forall|x: int|
            0 <= x < w.nodes.len() ==> (#[trigger] inserted_all(w, owner, cs).nodes[x].owner matches Some(p) ==> (p as int)
                < w.nodes.len()),
        inserted_all(w, owner, cs).nodes[owner as int].children == cs,
        forall|x: int|
            0 <= x < w.nodes.len() ==> (#[trigger] inserted_all(w, owner, cs).nodes[x].owner == Some(owner)
                <==> cs.contains(x as usize)),
    decreases cs.len(),
{
    if cs.len() == 0 {
        assert(cs =~= Seq::<usize>::empty());
    } else {
        let pre = cs.drop_last();
        let c = cs.last();
        assert forall|i: int| 0 <= i < pre.len() implies (#[trigger] pre[i] as int) < w.nodes.len() by {
            assert(pre[i] == cs[i]);
        }
        assert(pre.no_duplicates()) by {
            assert forall|i: int, j: int| 0 <= i < pre.len() && 0 <= j < pre.len() && i != j implies pre[i] != pre[j] by {
                assert(pre[i] == cs[i] && pre[j] == cs[j]);
            }
        }
        assert(!pre.contains(c)) by {
            if pre.contains(c) {
                let i = choose|i: int| 0 <= i < pre.len() && pre[i] == c;
                assert(cs[i] == cs[cs.len() - 1]);
            }
        }
        lemma_inserted_all_children(w, owner, pre);
        let wk = inserted_all(w, owner, pre);
        assert((c as int) < w.nodes.len()) by {
            assert(cs[cs.len() - 1] == c);
        }
        let r = released(wk, c);
        assert(wk.nodes[c as int].owner != Some(owner));
        match wk.nodes[c as int].owner {
            Some(prev) => {
                let d = detached(wk, prev, c);
                assert(d.nodes.len() == wk.nodes.len());
                assert(d.nodes[owner as int].children == wk.nodes[owner as int].children);
                assert(r.nodes.len() == d.nodes.len());
                assert(r.nodes[owner as int].children == d.nodes[owner as int].children);
                assert forall|x: int| 0 <= x < r.nodes.len() implies (#[trigger] r.nodes[x].owner == Some(owner)
                    <==> pre.contains(x as usize)) && (r.nodes[x].owner matches Some(p) ==> (p as int) < w.nodes.len()) by {
                    assert(r.nodes[x].owner == d.nodes[x].owner);
                    assert(wk.nodes[x].owner == Some(owner) <==> pre.contains(x as usize));
                }
            },
            None => {
                assert forall|x: int| 0 <= x < r.nodes.len() implies (#[trigger] r.nodes[x].owner == Some(owner)
                    <==> pre.contains(x as usize)) && (r.nodes[x].owner matches Some(p) ==> (p as int) < w.nodes.len()) by {
                    assert(wk.nodes[x].owner == Some(owner) <==> pre.contains(x as usize));
                }
            },
        }
        assert(r.nodes.len() == wk.nodes.len());
        assert(r.nodes[owner as int].children == pre);
        let k = (cs.len() - 1) as usize;
        let a = attached(r, owner, c, k);
        pre.insert_ensures(k as int, c);
        assert(pre.insert(k as int, c) =~= cs);
        assert(a.nodes[owner as int].children == cs);
        let after = marked(a, chain(a, owner));
        assert(after.nodes[owner as int].children == a.nodes[owner as int].children);
        assert forall|x: int| 0 <= x < w.nodes.len() implies (#[trigger] after.nodes[x].owner == Some(owner)
            <==> cs.contains(x as usize)) && (after.nodes[x].owner matches Some(p) ==> (p as int) < w.nodes.len()) by {
            assert(after.nodes[x].owner == a.nodes[x].owner);
            if x == c as int {
                assert(cs[cs.len() - 1] == c);
            } else {
                assert(a.nodes[x].owner == r.nodes[x].owner);
                if pre.contains(x as usize) {
                    let i = choose|i: int| 0 <= i < pre.len() && pre[i] == x as usize;
                    assert(cs[i] == x as usize);
                }
                if cs.contains(x as usize) {
                    let i = choose|i: int| 0 <= i < cs.len() && cs[i] == x as usize;
                    assert(i != cs.len() - 1);
                    assert(pre[i] == x as usize);
                }
            }
        }
    }
}

/// After the children of a node are set to a list of distinct nodes, the
/// node's children are exactly that list, in order, and the node owns each
/// of them and no other node.
#[verifier::spinoff_prover]
pub proof fn law_set_children(v: TreeView, owner: usize, cs: Seq<usize>)
    requires
        well_formed(v),
        (owner as int) < v.nodes.len(),
        cs.len() <= usize::MAX,
        cs.no_duplicates(),
        forall|i: int| 0 <= i < cs.len() ==> (#[trigger] cs[i] as int) < v.nodes.len(),
    ensures
        ({
            let o = orphaned(v, owner);
            let after = inserted_all(marked(o, chain(o, owner)), owner, cs);
            &&& after.nodes[owner as int].children == cs
            &&& forall|i: int| 0 <= i < cs.len() ==> after.nodes[#[trigger] cs[i] as int].owner == Some(owner)
            &&& forall|x: int|
                0 <= x < v.nodes.len() ==> (#[trigger] after.nodes[x].owner == Some(owner) <==> cs.contains(x as usize))
        }),
{
    let o = orphaned(v, owner);
    let base = marked(o, chain(o, owner));
    assert forall|x: int| 0 <= x < base.nodes.len() implies #[trigger] base.nodes[x].owner != Some(owner)
        && (base.nodes[x].owner matches Some(p) ==> (p as int) < base.nodes.len()) by {
        assert(base.nodes[x].owner == o.nodes[x].owner);
        if v.nodes[x].owner == Some(owner) {
            assert(v.nodes[owner as int].children.contains(x as usize));
        }
    }
    lemma_inserted_all_children(base, owner, cs);
    let after = inserted_all(base, owner, cs);
    assert forall|i: int| 0 <= i < cs.len() implies after.nodes[#[trigger] cs[i] as int].owner == Some(owner) by {
        assert(cs.contains(cs[i]));
    }
}

/// Freeing a node leaves it with no owner and no children, leaves each of
/// its former children with no owner, and takes it out of its former
/// owner's children.
#[verifier::spinoff_prover]
pub proof fn law_free(v: TreeView, node: usize)
    requires
        well_formed(v),
        (node as int) < v.nodes.len(),
    ensures
        ({
            let after = orphaned(released(v, node), node);
            let cs = v.nodes[node as int].children;
            &&& after.nodes[node as int].owner is None
            &&& after.nodes[node as int].children == Seq::<usize>::empty()
            &&& forall|i: int| 0 <= i < cs.len() ==> after.nodes[#[trigger] cs[i] as int].owner is None
            &&& v.nodes[node as int].owner matches Some(p) ==> after.nodes[p as int].children
                == v.nodes[p as int].children.remove(first_index(v.nodes[p as int].children, node))
        }),
{
    lemma_chain_facts(v, node);
    lemma_chain_unfold(v, node);
    let r = released(v, node);
    let cs = v.nodes[node as int].children;
    match v.nodes[node as int].owner {
        Some(p) => {
            assert(chain(v, node)[1] == p);
            assert(p != node);
            let d = detached(v, p, node);
            assert(d.nodes[node as int].children == cs);
            assert(r.nodes[node as int].children == d.nodes[node as int].children);
            assert(r.nodes[node as int].owner is None);
            assert(r.nodes[p as int].children == d.nodes[p as int].children);
        },
        None => {},
    }
    let after = orphaned(r, node);
    assert forall|i: int| 0 <= i < cs.len() implies after.nodes[#[trigger] cs[i] as int].owner is None by {
        assert(r.nodes[node as int].children.contains(cs[i]));
    }
}

/// Inserting a value a sequence does not hold and removing its first
/// occurrence gives the sequence back.
proof fn lemma_insert_then_remove_first(cs: Seq<usize>, at: int, c: usize)
    requires
        0 <= at <= cs.len(),
        !cs.contains(c),
    ensures
        cs.insert(at, c).contains(c),
        first_index(cs.insert(at, c), c) == at,
        cs.insert(at, c).remove(first_index(cs.insert(at, c), c)) == cs,
{
    let ins = cs.insert(at, c);
    cs.insert_ensures(at, c);
    assert(ins[at] == c);
    lemma_first_index(ins, c);
    assert forall|j: int| 0 <= j < ins.len() && j != at implies ins[j] != c by {
        if j < at {
            assert(ins[j] == cs[j]);
        } else {
            assert(ins[j] == cs[j - 1]);
        }
    }
    assert(first_index(ins, c) == at);
    assert(ins.remove(at) =~= cs);
}

/// Removing a child just inserted into a node that did not hold it gives the
/// node back its children as they were, and leaves the child with no owner.
#[verifier::spinoff_prover]
#[verifier::rlimit(40)]
pub proof fn law_remove_undoes_insert(v: TreeView, node: usize, child: usize, index: usize)
    requires
        well_formed(v),
        (node as int) < v.nodes.len(),
        (child as int) < v.nodes.len(),
        !chain(v, node).contains(child),
        !v.nodes[node as int].children.contains(child),
    ensures
        ({
            let a = inserted(v, node, child, index);
            let d = detached(a, node, child);
            let after = marked(d, chain(d, node));
            &&& a.nodes[node as int].children.contains(child)
            &&& after.nodes[node as int].children == v.nodes[node as int].children
            &&& after.nodes[child as int].owner is None
        }),
{
    law_insert_child(v, node, child, index);
    let cs = v.nodes[node as int].children;
    let r = released(v, child);
    assert(r.nodes[node as int].children == cs) by {
        match v.nodes[child as int].owner {
            Some(prev) => {
                assert(v.nodes[prev as int].children.contains(child));
                assert(prev != node);
                let dd = detached(v, prev, child);
                assert(dd.nodes[node as int].children == cs);
            },
            None => {},
        }
    }
    let at = if (index as int) <= cs.len() { index as int } else { cs.len() as int };
    lemma_insert_then_remove_first(cs, at, child);
}

/// Top and bottom take the value set on the side itself; failing that, the
/// one set on `vertical`; failing that, the one set on `all`; failing that,
/// the fallback. The layout direction plays no part.
pub proof fn law_vertical_side_precedence(e: EdgeValues, side: i32, direction: i32, fallback: Length, v: Length)
    requires
        side == YG_EDGE_TOP || side == YG_EDGE_BOTTOM,
    ensures
        e.exact(side) == Some(v) ==> chosen_value(e, side, direction, fallback) == v,
        e.exact(side) is None && e.exact(YG_EDGE_VERTICAL) == Some(v) ==> chosen_value(e, side, direction, fallback) == v,
        e.exact(side) is None && e.exact(YG_EDGE_VERTICAL) is None && e.exact(YG_EDGE_ALL) == Some(v)
            ==> chosen_value(e, side, direction, fallback) == v,
        e.exact(side) is None && e.exact(YG_EDGE_VERTICAL) is None && e.exact(YG_EDGE_ALL) is None
            ==> chosen_value(e, side, direction, fallback) == fallback,
        chosen_value(e, side, direction, fallback) == chosen_value(e, side, YG_DIRECTION_LTR, fallback),
        e.exact(YG_EDGE_HORIZONTAL) == Some(v) && e.exact(side) is None && e.exact(YG_EDGE_VERTICAL) is None
            && e.exact(YG_EDGE_ALL) is None ==> chosen_value(e, side, direction, fallback) == fallback,
{
}

/// Left and right under a left-to-right or right-to-left direction take the
/// logical edge that names them (start for left and end for right under
/// left-to-right, the other way round under right-to-left); failing that,
/// the side itself; then `horizontal`; then `all`; then the fallback.
/// Under any other direction the logical edges play no part.
pub proof fn law_horizontal_side_precedence(e: EdgeValues, side: i32, direction: i32, fallback: Length, v: Length)
    requires
        side == YG_EDGE_LEFT || side == YG_EDGE_RIGHT,
    ensures
        ({
            let logical = if (side == YG_EDGE_LEFT) == (direction == YG_DIRECTION_LTR) {
                YG_EDGE_START
            } else {
                YG_EDGE_END
            };
            let directed = direction == YG_DIRECTION_LTR || direction == YG_DIRECTION_RTL;
            let logical_unset = !directed || e.exact(logical) is None;
            &&& directed && e.exact(logical) == Some(v) ==> chosen_value(e, side, direction, fallback) == v
            &&& logical_unset && e.exact(side) == Some(v) ==> chosen_value(e, side, direction, fallback) == v
            &&& logical_unset && e.exact(side) is None && e.exact(YG_EDGE_HORIZONTAL) == Some(v)
                ==> chosen_value(e, side, direction, fallback) == v
            &&& logical_unset && e.exact(side) is None && e.exact(YG_EDGE_HORIZONTAL) is None && e.exact(
                YG_EDGE_ALL,
            ) == Some(v) ==> chosen_value(e, side, direction, fallback) == v
            &&& logical_unset && e.exact(side) is None && e.exact(YG_EDGE_HORIZONTAL) is None && e.exact(
                YG_EDGE_ALL,
            ) is None ==> chosen_value(e, side, direction, fallback) == fallback
        }),
{
}

/// A code that names no physical side resolves to the fallback.
pub proof fn law_non_side_edge_falls_back(e: EdgeValues, edge: i32, direction: i32, fallback: Length)
    requires
        edge != YG_EDGE_LEFT && edge != YG_EDGE_TOP && edge != YG_EDGE_RIGHT && edge != YG_EDGE_BOTTOM,
    ensures
        chosen_value(e, edge, direction, fallback) == fallback,
{
}

/// The alignment of an absolutely positioned child `d` with no inset, in its
/// owner `o`. On the cross axis it follows the child's own `align-self` when
/// that is set, and the owner's `align-items` only otherwise: center
/// centres, flex-end and end put it at the end, anything else at the start,
/// with start and end traded under reverse wrapping. On the main axis it
/// follows the owner's `justify-content` in the same way, with start and end
/// traded under a reversed direction. A row's main axis is horizontal, a
/// column's vertical. Changing the owner's `align-items` changes nothing
/// when the child's `align-self` is set.
pub proof fn law_absolute_alignment(d: NodeData, o: NodeData, items: Option<AlignItems>)
    ensures
        ({
            let (x, y) = absolute_alignment(d, o);
            let fd = o.style.flex_direction;
            let row = fd == FlexDirection::Row || fd == FlexDirection::RowReverse;
            let main = if row { x } else { y };
            let cross = if row { y } else { x };
            let item = if d.style.align_self is Some { d.style.align_self } else { o.style.align_items };
            let cross_reversed = o.style.flex_wrap == FlexWrap::WrapReverse;
            let main_reversed = fd == FlexDirection::RowReverse || fd == FlexDirection::ColumnReverse;
            let j = o.style.justify_content;
            &&& item == Some(AlignItems::Center) ==> cross == AxisAlign::Center
            &&& (item == Some(AlignItems::FlexEnd) || item == Some(AlignItems::End)) ==> cross == if cross_reversed {
                AxisAlign::Start
            } else {
                AxisAlign::End
            }
            &&& !(item == Some(AlignItems::Center) || item == Some(AlignItems::FlexEnd) || item == Some(
                AlignItems::End,
            )) ==> cross == if cross_reversed {
                AxisAlign::End
            } else {
                AxisAlign::Start
            }
            &&& j == Some(AlignContent::Center) ==> main == AxisAlign::Center
            &&& (j == Some(AlignContent::FlexEnd) || j == Some(AlignContent::End)) ==> main == if main_reversed {
                AxisAlign::Start
            } else {
                AxisAlign::End
            }
            &&& !(j == Some(AlignContent::Center) || j == Some(AlignContent::FlexEnd) || j == Some(AlignContent::End))
                ==> main == if main_reversed {
                AxisAlign::End
            } else {
                AxisAlign::Start
            }
            &&& d.style.align_self is Some ==> absolute_alignment(
                d,
                NodeData { style: NodeStyle { align_items: items, ..o.style }, ..o },
            ) == absolute_alignment(d, o)
        }),
{
}

/// The first node of `s` that forms a containing block, with the index at
/// which it stands: every node before it has an owner, is statically
/// positioned and does not always form a containing block; it has no owner,
/// is positioned other than statically, always forms one, or is the last.
proof fn lemma_first_containing_block(v: TreeView, s: Seq<usize>) -> (k: int)
    requires
        s.len() >= 1,
        forall|i: int| 0 <= i < s.len() ==> (#[trigger] s[i] as int) < v.nodes.len(),
    ensures
        0 <= k < s.len(),
        s[k] == first_containing_block(v, s),
        forall|j: int|
            0 <= j < k ==> v.nodes[#[trigger] s[j] as int].owner is Some && v.nodes[s[j] as int].data.position_type_mode
                == YG_POSITION_TYPE_STATIC && !v.nodes[s[j] as int].data.always_forms_containing_block,
        k == s.len() - 1 || v.nodes[s[k] as int].owner is None || v.nodes[s[k] as int].data.position_type_mode
            != YG_POSITION_TYPE_STATIC || v.nodes[s[k] as int].data.always_forms_containing_block,
    decreases s.len(),
{
    if s.len() <= 1 {
        0
    } else if crate::layout_plan::forms_containing_block(v, s[0]) {
        0
    } else {
        let t = s.drop_first();
        assert forall|i: int| 0 <= i < t.len() implies (#[trigger] t[i] as int) < v.nodes.len() by {
            assert(t[i] == s[i + 1]);
        }
        let k1 = lemma_first_containing_block(v, t);
        assert forall|j: int| 0 <= j < k1 + 1 implies v.nodes[#[trigger] s[j] as int].owner is Some
            && v.nodes[s[j] as int].data.position_type_mode == YG_POSITION_TYPE_STATIC
            && !v.nodes[s[j] as int].data.always_forms_containing_block by {
            if j > 0 {
                assert(s[j] == t[j - 1]);
            }
        }
        assert(s[k1 + 1] == t[k1]);
        k1 + 1
    }
}

/// The containing block of the absolutely positioned children of `owner` is
/// the first node up `owner`'s chain that has no owner, is positioned other
/// than statically (relative or absolute) or always forms a containing block;
/// every node passed over on the way is static. In particular a node that is
/// not static contains its absolutely positioned children itself.
#[verifier::spinoff_prover]
#[verifier::rlimit(40)]
pub proof fn law_containing_block(v: TreeView, owner: usize)
    requires
        well_formed(v),
        (owner as int) < v.nodes.len(),
    ensures
        ({
            let s = chain(v, owner);
            let r = first_containing_block(v, s);
            &&& v.nodes[owner as int].data.position_type_mode != YG_POSITION_TYPE_STATIC ==> r == owner
            &&& v.nodes[owner as int].data.always_forms_containing_block ==> r == owner
            &&& v.nodes[owner as int].owner is None ==> r == owner
            &&& exists|k: int|
                0 <= k < s.len() && #[trigger] s[k] == r && (forall|j: int|
                    0 <= j < k ==> v.nodes[#[trigger] s[j] as int].owner is Some && v.nodes[s[j] as int].data.position_type_mode
                        == YG_POSITION_TYPE_STATIC && !v.nodes[s[j] as int].data.always_forms_containing_block) && (k
                    == s.len() - 1 || v.nodes[s[k] as int].owner is None || v.nodes[s[k] as int].data.position_type_mode
                    != YG_POSITION_TYPE_STATIC || v.nodes[s[k] as int].data.always_forms_containing_block)
        }),
{
    lemma_chain_facts(v, owner);
    let s = chain(v, owner);
    let k = lemma_first_containing_block(v, s);
    assert(s[0] == owner);
    if k > 0 {
        assert(v.nodes[s[0] as int].owner is Some);
    }
    assert(s[k] == first_containing_block(v, s));
}

/// Setting the column gap changes the column gap only, setting the row gap
/// the row gap only, and any other gutter sets both; each reads back as set,
/// and setting one gutter after the other leaves both as set.
pub proof fn law_gap(s: NodeStyle, gutter: i32, a: Length, b: Length)
    ensures
        with_gap(s, YG_GUTTER_COLUMN, a).gap.width == a,
        with_gap(s, YG_GUTTER_COLUMN, a).gap.height == s.gap.height,
        with_gap(s, YG_GUTTER_ROW, a).gap.height == a,
        with_gap(s, YG_GUTTER_ROW, a).gap.width == s.gap.width,
        gutter != YG_GUTTER_COLUMN && gutter != YG_GUTTER_ROW ==> with_gap(s, gutter, a).gap.width == a
            && with_gap(s, gutter, a).gap.height == a,
        gap_reading(with_gap(s, YG_GUTTER_COLUMN, a), YG_GUTTER_COLUMN) == yg_value_of(a),
        gap_reading(with_gap(s, YG_GUTTER_COLUMN, a), YG_GUTTER_ROW) == gap_reading(s, YG_GUTTER_ROW),
        gap_reading(with_gap(s, YG_GUTTER_ROW, a), YG_GUTTER_ROW) == yg_value_of(a),
        gap_reading(with_gap(s, YG_GUTTER_ROW, a), YG_GUTTER_COLUMN) == gap_reading(s, YG_GUTTER_COLUMN),
        gap_reading(with_gap(with_gap(s, YG_GUTTER_COLUMN, a), YG_GUTTER_ROW, b), YG_GUTTER_COLUMN) == yg_value_of(a),
        gap_reading(with_gap(with_gap(s, YG_GUTTER_COLUMN, a), YG_GUTTER_ROW, b), YG_GUTTER_ROW) == yg_value_of(b),
        gap_reading(with_gap(with_gap(s, YG_GUTTER_ROW, b), YG_GUTTER_COLUMN, a), YG_GUTTER_ROW) == yg_value_of(b),
        ({
            let t = with_gap(s, gutter, a);
            t == NodeStyle { gap: t.gap, ..s }
        }),
{
}

/// The flex factors handed to the layout engine. A node with no owner gets
/// grow and shrink 0. Otherwise grow is the `flex-grow` set (it reads back
/// the same), else a positive `flex`, else 0; shrink is the `flex-shrink`
/// set (as it reads back), else without web defaults the magnitude of a
/// negative `flex`, else 1 with web defaults and 0 without. The basis is the
/// one set, except that an automatic basis under a positive `flex` becomes 0
/// (it stays automatic with web defaults).
pub proof fn law_flex_factors(d: NodeData, web: bool)
    ensures
        resolved_flex_grow(d, false) == ZERO_BITS,
        resolved_flex_shrink(d, false, web) == ZERO_BITS,
        d.has_flex_grow ==> resolved_flex_grow(d, true) == d.style.flex_grow && resolved_flex_grow(d, true)
            == flex_grow_reading(d),
        !d.has_flex_grow && (d.flex matches Some(f) && is_positive_bits(f)) ==> resolved_flex_grow(d, true) == d.flex->0,
        !d.has_flex_grow && !(d.flex matches Some(f) && is_positive_bits(f)) ==> resolved_flex_grow(d, true)
            == ZERO_BITS,
        d.has_flex_shrink ==> resolved_flex_shrink(d, true, web) == d.style.flex_shrink && resolved_flex_shrink(
            d,
            true,
            web,
        ) == flex_shrink_reading(d, web),
        !d.has_flex_shrink && !web && (d.flex matches Some(f) && is_negative_bits(f)) ==> resolved_flex_shrink(
            d,
            true,
            web,
        ) == negated_bits(d.flex->0) && is_positive_bits(resolved_flex_shrink(d, true, web)),
        !d.has_flex_shrink && web ==> resolved_flex_shrink(d, true, web) == ONE_BITS,
        !d.has_flex_shrink && !web && !(d.flex matches Some(f) && is_negative_bits(f)) ==> resolved_flex_shrink(
            d,
            true,
            web,
        ) == ZERO_BITS,
        (d.flex matches Some(f) && is_positive_bits(f)) && d.style.flex_basis == Length::Auto ==> resolved_flex_basis(
            d,
            web,
        ) == if web {
            Length::Auto
        } else {
            Length::Points(ZERO_BITS)
        },
        !((d.flex matches Some(f) && is_positive_bits(f)) && d.style.flex_basis == Length::Auto)
            ==> resolved_flex_basis(d, web) == d.style.flex_basis,
{
    if let Some(f) = d.flex {
        crate::values::lemma_negation(f);
    }
}

/// Which inset places an absolutely positioned node. A start inset that is a
/// length or a percentage always wins. With none of start, end, left and
/// right resolving to a number, the node is aligned in the available space.
/// When its containing block is its owner, left, end and right move it only
/// in the right-to-left case with left and right both set and start and end
/// unset; otherwise left wins over end, and end over right. Vertically, with
/// neither top nor bottom resolving, it is aligned; top and bottom move it
/// only when its containing block is not its owner, top before bottom.
pub proof fn law_inset_placement(d: NodeData, compat: bool, a: Length, b: Length)
    requires
        a matches Length::Points(_) || a matches Length::Percent(_),
    ensures
        d.position_edges.exact(YG_EDGE_START) == Some(a) ==> horizontal_placement(d, compat) == HorizontalPlacement::Start,
        d.position_edges.exact(YG_EDGE_START) is None && d.position_edges.exact(YG_EDGE_END) is None
            && d.position_edges.exact(YG_EDGE_LEFT) is None && d.position_edges.exact(YG_EDGE_RIGHT) is None
            ==> horizontal_placement(d, compat) == HorizontalPlacement::Aligned,
        d.position_edges.exact(YG_EDGE_START) is None && d.position_edges.exact(YG_EDGE_LEFT) == Some(a) && compat
            && !(d.layout_direction == YG_DIRECTION_RTL && d.position_edges.exact(YG_EDGE_END) is None && d.position_edges.exact(
            YG_EDGE_RIGHT,
        ) is Some) ==> horizontal_placement(d, compat) == HorizontalPlacement::Left,
        d.position_edges.exact(YG_EDGE_START) is None && d.position_edges.exact(YG_EDGE_LEFT) == Some(a) && !compat
            && d.layout_direction != YG_DIRECTION_RTL ==> horizontal_placement(d, compat) == HorizontalPlacement::Unchanged,
        d.position_edges.exact(YG_EDGE_TOP) == Some(a) ==> vertical_placement(d, compat) == if compat {
            VerticalPlacement::Top
        } else {
            VerticalPlacement::Unchanged
        },
        d.position_edges.exact(YG_EDGE_TOP) is None && d.position_edges.exact(YG_EDGE_BOTTOM) == Some(a)
            ==> vertical_placement(d, compat) == if compat {
            VerticalPlacement::Bottom
        } else {
            VerticalPlacement::Unchanged
        },
        d.position_edges.exact(YG_EDGE_TOP) is None && d.position_edges.exact(YG_EDGE_BOTTOM) is None
            ==> vertical_placement(d, compat) == VerticalPlacement::Aligned,
{
}

} // verus!
