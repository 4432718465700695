//! Preparing a layout: the resolved style of every node, and the order in
//! which the layout engine's nodes are created from the Yoga tree. A node
//! with `display: contents` creates no engine node of its own: its
//! children's nodes take its place among its parent's children.
use vstd::prelude::*;
use crate::codes::{
    FlexDirection, YG_DIRECTION_RTL, YG_DISPLAY_CONTENTS, YG_POSITION_TYPE_STATIC,
};
use crate::edges::{resolve_inset_rect, resolve_lp_rect, resolve_margin_rect, resolve_direction, resolved_direction, resolved_rect, Rect};
use crate::style::NodeStyle;
use crate::tree::{chain, structure_ok, with_data, NodeData, NodeTree, TreeView};
use crate::values::{
    f32_bits_is_negative, f32_bits_is_positive, f32_bits_negate, is_negative_bits, is_positive_bits, negated_bits,
    Length, ONE_BITS, ZERO_BITS,
};

verus! {

/// A node's style as the layout engine is given it.
#[derive(Clone, Copy)]
pub struct ResolvedStyle {
    pub style: NodeStyle,
    pub inset: Rect,
    pub margin: Rect,
    pub padding: Rect,
    pub border: Rect,
}

/// The flex direction under a layout direction: under right-to-left, row
/// and row-reverse trade places.
pub open spec fn directed_flex_direction(fd: FlexDirection, direction: i32) -> FlexDirection {
    if direction == YG_DIRECTION_RTL {
        match fd {
            FlexDirection::Row => FlexDirection::RowReverse,
            FlexDirection::RowReverse => FlexDirection::Row,
            _ => fd,
        }
    } else {
        fd
    }
}

/// The flex grow factor handed to the engine: 0 for a node with no owner,
/// else the `flex-grow` set, else a positive `flex`, else 0.
pub open spec fn resolved_flex_grow(d: NodeData, has_owner: bool) -> u32 {
    if !has_owner {
        ZERO_BITS
    } else if d.has_flex_grow {
        d.style.flex_grow
    } else {
        match d.flex {
            Some(v) => if is_positive_bits(v) { v } else { ZERO_BITS },
            None => ZERO_BITS,
        }
    }
}

/// The flex shrink factor handed to the engine: 0 for a node with no owner,
/// else the `flex-shrink` set, else (without web defaults) the magnitude of a
/// negative `flex`, else 1 with web defaults and 0 without.
pub open spec fn resolved_flex_shrink(d: NodeData, has_owner: bool, use_web_defaults: bool) -> u32 {
    if !has_owner {
        ZERO_BITS
    } else if d.has_flex_shrink {
        d.style.flex_shrink
    } else {
        match d.flex {
            Some(v) => if !use_web_defaults && is_negative_bits(v) {
                negated_bits(v)
            } else if use_web_defaults {
                ONE_BITS
            } else {
                ZERO_BITS
            },
            None => if use_web_defaults { ONE_BITS } else { ZERO_BITS },
        }
    }
}

/// The flex basis handed to the engine: with a positive `flex` an automatic
/// basis becomes 0 (or stays automatic with web defaults).
pub open spec fn resolved_flex_basis(d: NodeData, use_web_defaults: bool) -> Length {
    if (d.flex matches Some(v) && is_positive_bits(v)) && d.style.flex_basis == Length::Auto {
        if use_web_defaults { Length::Auto } else { Length::Points(ZERO_BITS) }
    } else {
        d.style.flex_basis
    }
}

/// A rectangle with every side automatic.
pub open spec fn auto_rect() -> Rect {
    Rect { left: Length::Auto, top: Length::Auto, right: Length::Auto, bottom: Length::Auto }
}

/// The style of node `node` of `v` as the engine is given it when the node
/// lays out in `direction`: insets, margins, padding and border resolved from
/// the edge values (a static node has automatic insets), the flex direction
/// mirrored under right-to-left, and the flex factors and basis resolved.
pub open spec fn resolved_style(v: TreeView, node: usize, direction: i32) -> ResolvedStyle {
    let d = v.nodes[node as int].data;
    let web = v.configs[d.config as int].use_web_defaults;
    let has_owner = v.nodes[node as int].owner is Some;
    ResolvedStyle {
        style: NodeStyle {
            flex_direction: directed_flex_direction(d.style.flex_direction, direction),
            flex_grow: resolved_flex_grow(d, has_owner),
            flex_shrink: resolved_flex_shrink(d, has_owner, web),
            flex_basis: resolved_flex_basis(d, web),
            ..d.style
        },
        inset: if d.position_type_mode == YG_POSITION_TYPE_STATIC {
            auto_rect()
        } else {
            resolved_rect(d.position_edges, direction, Length::Auto)
        },
        margin: resolved_rect(d.margin_edges, direction, Length::Points(ZERO_BITS)),
        padding: resolved_rect(d.padding_edges, direction, Length::Points(ZERO_BITS)),
        border: resolved_rect(d.border_edges, direction, Length::Points(ZERO_BITS)),
    }
}

/// The flex grow factor of a node.
pub fn resolve_flex_grow(d: &NodeData, has_owner: bool) -> (r: u32)
    ensures
        r == resolved_flex_grow(*d, has_owner),
{
    if !has_owner {
        return ZERO_BITS;
    }
    if d.has_flex_grow {
        return d.style.flex_grow;
    }
    match d.flex {
        Some(v) => if f32_bits_is_positive(v) { v } else { ZERO_BITS },
        None => ZERO_BITS,
    }
}

/// The flex shrink factor of a node.
pub fn resolve_flex_shrink(d: &NodeData, has_owner: bool, use_web_defaults: bool) -> (r: u32)
    ensures
        r == resolved_flex_shrink(*d, has_owner, use_web_defaults),
{
    if !has_owner {
        return ZERO_BITS;
    }
    if d.has_flex_shrink {
        return d.style.flex_shrink;
    }
    match d.flex {
        Some(v) => {
            if !use_web_defaults && f32_bits_is_negative(v) {
                f32_bits_negate(v)
            } else if use_web_defaults {
                ONE_BITS
            } else {
                ZERO_BITS
            }
        },
        None => if use_web_defaults { ONE_BITS } else { ZERO_BITS },
    }
}

/// The flex basis of a node.
pub fn resolve_flex_basis(d: &NodeData, use_web_defaults: bool) -> (r: Length)
    ensures
        r == resolved_flex_basis(*d, use_web_defaults),
{
    let positive = match d.flex {
        Some(v) => f32_bits_is_positive(v),
        None => false,
    };
    let is_auto = match d.style.flex_basis {
        Length::Auto => true,
        _ => false,
    };
    if positive && is_auto {
        if use_web_defaults { Length::Auto } else { Length::Points(ZERO_BITS) }
    } else {
        d.style.flex_basis
    }
}

/// An engine node to create: the Yoga node it stands for, its style, and its
/// children as positions of earlier entries of the plan.
pub struct PlanEntry {
    pub node: usize,
    pub style: ResolvedStyle,
    pub children: Vec<usize>,
}

/// The abstract value of a plan entry.
#[verifier::ext_equal]
pub struct EntryView {
    pub node: usize,
    pub style: ResolvedStyle,
    pub children: Seq<usize>,
}

impl PlanEntry {
    pub open spec fn view(&self) -> EntryView {
        EntryView { node: self.node, style: self.style, children: self.children@ }
    }
}

/// A layout plan being built: the engine nodes to create, in order, the
/// `display: contents` nodes met, and the layout direction given to each
/// node visited, in visiting order.
pub struct Plan {
    pub entries: Vec<PlanEntry>,
    pub contents: Vec<usize>,
    pub directions: Vec<(usize, i32)>,
}

/// The abstract value of a plan.
#[verifier::ext_equal]
pub struct PlanView {
    pub entries: Seq<EntryView>,
    pub contents: Seq<usize>,
    pub directions: Seq<(usize, i32)>,
}

impl Plan {
    pub open spec fn view(&self) -> PlanView {
        PlanView {
            entries: Seq::new(self.entries@.len(), |i: int| self.entries@[i].view()),
            contents: self.contents@,
            directions: self.directions@,
        }
    }
}

/// Visiting `node`, whose owner in the traversal lays out in `owner_direction`,
/// with `fuel` levels of depth left: the plan grows by the node's subtree and
/// the result is the positions of the engine nodes that stand for the node
/// among its parent's children (its own entry, or, for `display: contents`,
/// its children's). `None` when the depth runs out.
pub open spec fn visit(v: TreeView, node: usize, owner_direction: i32, p: PlanView, fuel: nat) -> Option<(PlanView, Seq<usize>)>
    decreases fuel, 0nat,
{
    if fuel == 0 || node as int >= v.nodes.len() {
        None
    } else {
        let d = v.nodes[node as int].data;
        let direction = resolved_direction(d.direction, owner_direction);
        let p1 = PlanView { directions: p.directions.push((node, direction)), ..p };
        match visit_all(v, v.nodes[node as int].children, direction, p1, (fuel - 1) as nat) {
            None => None,
            Some((p2, ids)) => if d.display_mode == YG_DISPLAY_CONTENTS {
                Some((PlanView { contents: p2.contents.push(node), ..p2 }, ids))
            } else {
                Some((
                    PlanView {
                        entries: p2.entries.push(EntryView { node, style: resolved_style(v, node, direction), children: ids }),
                        ..p2
                    },
                    seq![p2.entries.len() as usize],
                ))
            },
        }
    }
}

/// Visiting each of `cs` in turn, concatenating their positions.
pub open spec fn visit_all(v: TreeView, cs: Seq<usize>, direction: i32, p: PlanView, fuel: nat) -> Option<(PlanView, Seq<usize>)>
    decreases fuel, cs.len() + 1,
{
    if cs.len() == 0 {
        Some((p, Seq::empty()))
    } else {
        match visit_all(v, cs.drop_last(), direction, p, fuel) {
            None => None,
            Some((p1, ids1)) => match visit(v, cs.last(), direction, p1, fuel) {
                None => None,
                Some((p2, ids2)) => Some((p2, ids1 + ids2)),
            },
        }
    }
}

/// When visiting a prefix of the children fails, visiting them all fails.
proof fn lemma_visit_all_prefix_none(v: TreeView, cs: Seq<usize>, m: int, direction: i32, p: PlanView, fuel: nat)
    requires
        0 <= m <= cs.len(),
        visit_all(v, cs.take(m), direction, p, fuel) is None,
    ensures
        visit_all(v, cs, direction, p, fuel) is None,
    decreases cs.len(),
{
    if m == cs.len() {
        assert(cs.take(m) =~= cs);
    } else {
        assert(cs.drop_last().take(m) =~= cs.take(m));
        lemma_visit_all_prefix_none(v, cs.drop_last(), m, direction, p, fuel);
    }
}

/// The resolved style of a node laid out in `direction`.
pub fn resolve_style(tree: &NodeTree, node: usize, direction: i32) -> (r: ResolvedStyle)
    requires
        tree.wf(),
        (node as int) < tree@.nodes.len(),
    ensures
        r == resolved_style(tree@, node, direction),
{
    proof {
        tree.lemma_wf_view();
    }
    let d = tree.data(node);
    let web = tree.config(d.config).use_web_defaults;
    let has_owner = tree.owner(node).is_some();
    let mut style = d.style;
    style.flex_direction = if direction == YG_DIRECTION_RTL {
        match style.flex_direction {
            FlexDirection::Row => FlexDirection::RowReverse,
            FlexDirection::RowReverse => FlexDirection::Row,
            other => other,
        }
    } else {
        style.flex_direction
    };
    style.flex_grow = resolve_flex_grow(&d, has_owner);
    style.flex_shrink = resolve_flex_shrink(&d, has_owner, web);
    style.flex_basis = resolve_flex_basis(&d, web);
    let inset = if d.position_type_mode == YG_POSITION_TYPE_STATIC {
        Rect { left: Length::Auto, top: Length::Auto, right: Length::Auto, bottom: Length::Auto }
    } else {
        resolve_inset_rect(&d.position_edges, direction)
    };
    ResolvedStyle {
        style,
        inset,
        margin: resolve_margin_rect(&d.margin_edges, direction),
        padding: resolve_lp_rect(&d.padding_edges, direction),
        border: resolve_lp_rect(&d.border_edges, direction),
    }
}

/// Visits `node` (see `visit`), adding to `plan`.
pub fn build_node(tree: &NodeTree, node: usize, owner_direction: i32, plan: &mut Plan, fuel: usize) -> (ids: Option<Vec<usize>>)
    requires
        tree.wf(),
    ensures
        match visit(tree@, node, owner_direction, old(plan).view(), fuel as nat) {
            Some((p, s)) => ids matches Some(out) && out@ == s && final(plan).view() == p,
            None => ids is None,
        },
    decreases fuel,
{
    if fuel == 0 || node >= tree.node_count() {
        return None;
    }
    proof {
        tree.lemma_wf_view();
    }
    let d = tree.data(node);
    let direction = resolve_direction(d.direction, owner_direction);
    plan.directions.push((node, direction));
    let ghost p1 = plan.view();
    proof {
        assert(p1 =~= PlanView { directions: old(plan).view().directions.push((node, direction)), ..old(plan).view() });
    }
    let ghost cs = tree@.nodes[node as int].children;
    let n = tree.child_count(node);
    let mut child_ids: Vec<usize> = Vec::new();
    let mut k: usize = 0;
    proof {
        assert(cs.take(0) =~= Seq::<usize>::empty());
    }
    while k < n
        invariant
            tree.wf(),
            n == cs.len(),
            cs == tree@.nodes[node as int].children,
            (node as int) < tree@.nodes.len(),
            k <= n,
            fuel >= 1,
            node < tree@.nodes.len(),
            direction == resolved_direction(tree@.nodes[node as int].data.direction, owner_direction),
            p1 == (PlanView { directions: old(plan).view().directions.push((node, direction)), ..old(plan).view() }),
            visit_all(tree@, cs.take(k as int), direction, p1, (fuel - 1) as nat) matches Some((p, s)) && plan.view() == p && child_ids@ == s,
        decreases n - k,
    {
        let c = tree.get_child(node, k).unwrap();
        proof {
            assert(cs.take(k as int + 1).drop_last() =~= cs.take(k as int));
            assert(cs.take(k as int + 1).last() == c);
        }
        let ghost pb = plan.view();
        let sub = build_node(tree, c, direction, plan, fuel - 1);
        match sub {
            Some(mut s) => {
                child_ids.append(&mut s);
            },
            None => {
                proof {
                    assert(visit(tree@, c, direction, pb, (fuel - 1) as nat) is None);
                    assert(visit_all(tree@, cs.take(k as int + 1), direction, p1, (fuel - 1) as nat) is None);
                    lemma_visit_all_prefix_none(tree@, cs, k as int + 1, direction, p1, (fuel - 1) as nat);
                    assert(visit_all(tree@, cs, direction, p1, (fuel - 1) as nat) is None);
                    assert(direction == resolved_direction(tree@.nodes[node as int].data.direction, owner_direction));
                    assert(p1 == PlanView { directions: old(plan).view().directions.push((node, direction)), ..old(plan).view() });
                    assert(visit(tree@, node, owner_direction, old(plan).view(), fuel as nat) is None);
                }
                return None;
            },
        }
        k = k + 1;
    }
    proof {
        assert(cs.take(n as int) =~= cs);
    }
    if d.display_mode == YG_DISPLAY_CONTENTS {
        plan.contents.push(node);
        proof {
            let pair = visit_all(tree@, cs, direction, p1, (fuel - 1) as nat)->0;
            let p2 = pair.0;
            assert(plan.view() =~= PlanView { contents: p2.contents.push(node), ..p2 });
        }
        Some(child_ids)
    } else {
        let style = resolve_style(tree, node, direction);
        let idx = plan.entries.len();
        plan.entries.push(PlanEntry { node, style, children: child_ids });
        let mut out: Vec<usize> = Vec::new();
        out.push(idx);
        proof {
            let pair = visit_all(tree@, cs, direction, p1, (fuel - 1) as nat)->0;
            let p2 = pair.0;
            let e = EntryView { node, style: resolved_style(tree@, node, direction), children: pair.1 };
            assert(idx as int == p2.entries.len());
            assert(plan.view().entries =~= p2.entries.push(e));
            assert(plan.view() =~= PlanView { entries: p2.entries.push(e), ..p2 });
            assert(out@ =~= seq![p2.entries.len() as usize]);
        }
        Some(out)
    }
}

/// `v` with each `(node, direction)` of `ds`, in order, recorded as that
/// node's layout direction.
pub open spec fn with_layout_directions(v: TreeView, ds: Seq<(usize, i32)>) -> TreeView
    decreases ds.len(),
{
    if ds.len() == 0 {
        v
    } else {
        let w = with_layout_directions(v, ds.drop_last());
        let n = ds.last().0;
        if (n as int) < w.nodes.len() {
            with_data(w, n, NodeData { layout_direction: ds.last().1, ..w.nodes[n as int].data })
        } else {
            w
        }
    }
}

/// A node's flags once a layout has been computed for it: a new layout,
/// clean, no overflow.
pub open spec fn laid_out_data(d: NodeData) -> NodeData {
    NodeData { has_new_layout: true, is_dirty: false, had_overflow: false, ..d }
}

/// `v` with each node of `ns`, in order, given the flags of a computed layout.
pub open spec fn with_laid_out(v: TreeView, ns: Seq<usize>) -> TreeView
    decreases ns.len(),
{
    if ns.len() == 0 {
        v
    } else {
        let w = with_laid_out(v, ns.drop_last());
        let n = ns.last();
        if (n as int) < w.nodes.len() {
            with_data(w, n, laid_out_data(w.nodes[n as int].data))
        } else {
            w
        }
    }
}

/// `v` with each `display: contents` node of `ns`, in order, given the flags
/// of a computed layout and the direction it resolves to against `owner_direction`.
pub open spec fn with_contents_laid_out(v: TreeView, ns: Seq<usize>, owner_direction: i32) -> TreeView
    decreases ns.len(),
{
    if ns.len() == 0 {
        v
    } else {
        let w = with_contents_laid_out(v, ns.drop_last(), owner_direction);
        let n = ns.last();
        if (n as int) < w.nodes.len() {
            let d = w.nodes[n as int].data;
            with_data(
                w,
                n,
                NodeData { layout_direction: resolved_direction(d.direction, owner_direction), ..laid_out_data(d) },
            )
        } else {
            w
        }
    }
}

/// The nodes of a plan's entries, in order.
pub open spec fn entry_nodes(entries: Seq<EntryView>) -> Seq<usize> {
    Seq::new(entries.len(), |i: int| entries[i].node)
}

/// The plan of a layout and the engine nodes that stand for its root.
pub struct LayoutPlan {
    pub plan: Plan,
    pub root_ids: Vec<usize>,
}

impl NodeTree {
    /// Records layout directions, in order.
    pub fn apply_layout_directions(&mut self, ds: &Vec<(usize, i32)>)
        requires
            old(self).wf(),
        ensures
            final(self).wf(),
            final(self)@ == with_layout_directions(old(self)@, ds@),
    {
        let mut i: usize = 0;
        proof {
            assert(ds@.take(0) =~= Seq::<(usize, i32)>::empty());
        }
        while i < ds.len()
            invariant
                i <= ds@.len(),
                self.wf(),
                self@ == with_layout_directions(old(self)@, ds@.take(i as int)),
            decreases ds.len() - i,
        {
            let (n, dir) = ds[i];
            proof {
                assert(ds@.take(i as int + 1).drop_last() =~= ds@.take(i as int));
                assert(ds@.take(i as int + 1).last() == (n, dir));
                self.lemma_wf_view();
            }
            if n < self.node_count() {
                let mut d = self.data(n);
                d.layout_direction = dir;
                self.set_data_raw(n, d);
            }
            i = i + 1;
        }
        proof {
            assert(ds@.take(ds@.len() as int) =~= ds@);
        }
    }

    /// Gives each node of `ns` the flags of a computed layout.
    pub fn apply_laid_out(&mut self, ns: &Vec<usize>)
        requires
            old(self).wf(),
        ensures
            final(self).wf(),
            final(self)@ == with_laid_out(old(self)@, ns@),
    {
        let mut i: usize = 0;
        proof {
            assert(ns@.take(0) =~= Seq::<usize>::empty());
        }
        while i < ns.len()
            invariant
                i <= ns@.len(),
                self.wf(),
                self@ == with_laid_out(old(self)@, ns@.take(i as int)),
            decreases ns.len() - i,
        {
            let n = ns[i];
            proof {
                assert(ns@.take(i as int + 1).drop_last() =~= ns@.take(i as int));
                assert(ns@.take(i as int + 1).last() == n);
                self.lemma_wf_view();
            }
            if n < self.node_count() {
                let mut d = self.data(n);
                d.has_new_layout = true;
                d.is_dirty = false;
                d.had_overflow = false;
                self.set_data_raw(n, d);
            }
            i = i + 1;
        }
        proof {
            assert(ns@.take(ns@.len() as int) =~= ns@);
        }
    }

    /// Gives each `display: contents` node of `ns` the flags of a computed
    /// layout and its direction resolved against `owner_direction`.
    pub fn apply_contents_laid_out(&mut self, ns: &Vec<usize>, owner_direction: i32)
        requires
            old(self).wf(),
        ensures
            final(self).wf(),
            final(self)@ == with_contents_laid_out(old(self)@, ns@, owner_direction),
    {
        let mut i: usize = 0;
        proof {
            assert(ns@.take(0) =~= Seq::<usize>::empty());
        }
        while i < ns.len()
            invariant
                i <= ns@.len(),
                self.wf(),
                self@ == with_contents_laid_out(old(self)@, ns@.take(i as int), owner_direction),
            decreases ns.len() - i,
        {
            let n = ns[i];
            proof {
                assert(ns@.take(i as int + 1).drop_last() =~= ns@.take(i as int));
                assert(ns@.take(i as int + 1).last() == n);
                self.lemma_wf_view();
            }
            if n < self.node_count() {
                let mut d = self.data(n);
                d.has_new_layout = true;
                d.is_dirty = false;
                d.had_overflow = false;
                d.layout_direction = resolve_direction(d.direction, owner_direction);
                self.set_data_raw(n, d);
            }
            i = i + 1;
        }
        proof {
            assert(ns@.take(ns@.len() as int) =~= ns@);
        }
    }

    /// Prepares the layout of the tree under `root` (the first half of Yoga's
    /// `YGNodeCalculateLayout`): visits the tree, records every visited node's
    /// layout direction, and returns the plan of engine nodes. `None` when the
    /// children lists lead deeper than there are nodes, which happens only
    /// when they lead round in a cycle.
    pub fn prepare_layout(&mut self, root: usize, owner_direction: i32) -> (r: Option<LayoutPlan>)
        requires
            old(self).wf(),
        ensures
            final(self).wf(),
            ({
                let fuel = if old(self)@.nodes.len() < usize::MAX { old(self)@.nodes.len() + 1 } else { old(self)@.nodes.len() };
                let empty = PlanView { entries: Seq::empty(), contents: Seq::empty(), directions: Seq::empty() };
                match visit(old(self)@, root, owner_direction, empty, fuel as nat) {
                    Some((p, ids)) => r matches Some(lp) && lp.plan.view() == p && lp.root_ids@ == ids
                        && final(self)@ == with_layout_directions(old(self)@, p.directions),
                    None => r is None && final(self)@ == old(self)@,
                }
            }),
    {
        let count = self.node_count();
        let fuel: usize = if count < usize::MAX { count + 1 } else { count };
        let mut plan = Plan { entries: Vec::new(), contents: Vec::new(), directions: Vec::new() };
        proof {
            let empty = PlanView { entries: Seq::empty(), contents: Seq::empty(), directions: Seq::empty() };
            assert(plan.view() =~= empty);
        }
        match build_node(self, root, owner_direction, &mut plan, fuel) {
            Some(ids) => {
                self.apply_layout_directions(&plan.directions);
                Some(LayoutPlan { plan, root_ids: ids })
            },
            None => None,
        }
    }

    /// Records a computed layout (the flags part of Yoga's
    /// `YGNodeCalculateLayout`): every node of the plan's entries, then every
    /// `display: contents` node, gets the flags of a computed layout; the
    /// latter also get their direction resolved against `owner_direction`.
    pub fn commit_layout(&mut self, plan: &Plan, owner_direction: i32)
        requires
            old(self).wf(),
        ensures
            final(self).wf(),
            final(self)@ == with_contents_laid_out(
                with_laid_out(old(self)@, entry_nodes(plan.view().entries)),
                plan.contents@,
                owner_direction,
            ),
    {
        let mut nodes: Vec<usize> = Vec::new();
        let mut i: usize = 0;
        while i < plan.entries.len()
            invariant
                i <= plan.entries@.len(),
                nodes@ == entry_nodes(plan.view().entries).take(i as int),
            decreases plan.entries.len() - i,
        {
            nodes.push(plan.entries[i].node);
            proof {
                assert(nodes@ =~= entry_nodes(plan.view().entries).take(i as int + 1));
            }
            i = i + 1;
        }
        proof {
            assert(nodes@ =~= entry_nodes(plan.view().entries));
        }
        self.apply_laid_out(&nodes);
        self.apply_contents_laid_out(&plan.contents, owner_direction);
    }

    /// The node that contains an absolutely positioned child of `owner`: the
    /// first node up `owner`'s chain that has no owner, is not statically
    /// positioned, or always forms a containing block.
    pub fn absolute_containing_block(&self, owner: usize) -> (r: usize)
        requires
            self.wf(),
            (owner as int) < self@.nodes.len(),
        ensures
            r == first_containing_block(self@, chain(self@, owner)),
    {
        let c = self.owner_chain(owner);
        proof {
            self.lemma_wf_view();
            crate::tree::lemma_chain_facts(self@, owner);
        }
        let mut i: usize = 0;
        proof {
            assert(c@.skip(0) =~= c@);
        }
        loop
            invariant
                0 < c@.len(),
                c@ == chain(self@, owner),
                forall|k: int| 0 <= k < c@.len() ==> (#[trigger] c@[k] as int) < self@.nodes.len(),
                i < c@.len(),
                first_containing_block(self@, c@) == first_containing_block(self@, c@.skip(i as int)),
            decreases c.len() - i,
        {
            let x = c[i];
            proof {
                assert(c@.skip(i as int)[0] == x);
            }
            if i + 1 == c.len() {
                return x;
            }
            let d = self.data(x);
            let o = self.owner(x);
            if o.is_none() || d.position_type_mode != YG_POSITION_TYPE_STATIC || d.always_forms_containing_block {
                return x;
            }
            proof {
                assert(c@.skip(i as int).drop_first() =~= c@.skip(i as int + 1));
            }
            i = i + 1;
        }
    }
}

/// Whether a node contains its absolutely positioned descendants: it has no
/// owner, is not statically positioned, or always forms a containing block.
pub open spec fn forms_containing_block(v: TreeView, n: usize) -> bool {
    let nv = v.nodes[n as int];
    nv.owner is None || nv.data.position_type_mode != YG_POSITION_TYPE_STATIC || nv.data.always_forms_containing_block
}

/// The first node of `s` that forms a containing block (the last node of `s`
/// when none does).
pub open spec fn first_containing_block(v: TreeView, s: Seq<usize>) -> usize
    decreases s.len(),
{
    if s.len() <= 1 {
        s[0]
    } else if forms_containing_block(v, s[0]) {
        s[0]
    } else {
        first_containing_block(v, s.drop_first())
    }
}

/// A ranking of the children lists: every child ranks below its node, and
/// every rank is below the number of nodes. The height of each node in the
/// children lists is such a ranking whenever they hold no cycle.
pub open spec fn children_ranked(v: TreeView, r: Seq<nat>) -> bool {
    &&& r.len() == v.nodes.len()
    &&& forall|i: int| 0 <= i < v.nodes.len() ==> #[trigger] r[i] < v.nodes.len()
    &&& forall|i: int, k: int|
        0 <= i < v.nodes.len() && 0 <= k < v.nodes[i].children.len() ==> r[#[trigger] v.nodes[i].children[k] as int]
            < r[i]
}

/// With more fuel than its rank, visiting a node succeeds.
proof fn lemma_visit_some(v: TreeView, r: Seq<nat>, node: usize, owner_direction: i32, p: PlanView, fuel: nat)
    requires
        structure_ok(v),
        children_ranked(v, r),
        (node as int) < v.nodes.len(),
        fuel > r[node as int],
    ensures
        visit(v, node, owner_direction, p, fuel) is Some,
    decreases fuel, 0nat,
{
    let d = v.nodes[node as int].data;
    let direction = resolved_direction(d.direction, owner_direction);
    let p1 = PlanView { directions: p.directions.push((node, direction)), ..p };
    let cs = v.nodes[node as int].children;
    assert forall|k: int| 0 <= k < cs.len() implies (#[trigger] cs[k] as int) < v.nodes.len() && r[cs[k] as int] < (fuel
        - 1) as nat by {
        assert(r[v.nodes[node as int].children[k] as int] < r[node as int]);
    }
    lemma_visit_all_some(v, r, cs, direction, p1, (fuel - 1) as nat);
}

/// With more fuel than the rank of each node of `cs`, visiting them all succeeds.
proof fn lemma_visit_all_some(v: TreeView, r: Seq<nat>, cs: Seq<usize>, direction: i32, p: PlanView, fuel: nat)
    requires
        structure_ok(v),
        children_ranked(v, r),
        forall|k: int| 0 <= k < cs.len() ==> (#[trigger] cs[k] as int) < v.nodes.len() && r[cs[k] as int] < fuel,
    ensures
        visit_all(v, cs, direction, p, fuel) is Some,
    decreases fuel, cs.len() + 1,
{
    if cs.len() > 0 {
        let pre = cs.drop_last();
        assert forall|k: int| 0 <= k < pre.len() implies (#[trigger] pre[k] as int) < v.nodes.len() && r[pre[k] as int]
            < fuel by {
            assert(pre[k] == cs[k]);
        }
        lemma_visit_all_some(v, r, pre, direction, p, fuel);
        let (p1, _) = visit_all(v, pre, direction, p, fuel).unwrap();
        assert(cs.last() == cs[cs.len() - 1]);
        lemma_visit_some(v, r, cs.last(), direction, p1, fuel);
    }
}

/// When the children lists hold no cycle (they have a ranking), preparing a
/// layout from any node gives a plan: the visit with the fuel that
/// `prepare_layout` gives succeeds.
pub proof fn law_layout_plan_exists_without_cycles(v: TreeView, root: usize, owner_direction: i32, r: Seq<nat>)
    requires
        structure_ok(v),
        (root as int) < v.nodes.len(),
        children_ranked(v, r),
    ensures
        ({
            let fuel = if v.nodes.len() < usize::MAX { v.nodes.len() + 1 } else { v.nodes.len() };
            let empty = PlanView { entries: Seq::empty(), contents: Seq::empty(), directions: Seq::empty() };
            visit(v, root, owner_direction, empty, fuel as nat) is Some
        }),
{
    let fuel = if v.nodes.len() < usize::MAX { v.nodes.len() + 1 } else { v.nodes.len() };
    let empty = PlanView { entries: Seq::empty(), contents: Seq::empty(), directions: Seq::empty() };
    assert(r[root as int] < v.nodes.len());
    lemma_visit_some(v, r, root, owner_direction, empty, fuel as nat);
}

} // verus!
