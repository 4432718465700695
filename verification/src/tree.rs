//! The node tree: an arena of nodes, each with an optional owner, a list of
//! children and its style data, and the dirty flag that changes propagate
//! up through the owners.
use vstd::prelude::*;
use crate::codes::{YG_DIRECTION_INHERIT, YG_DIRECTION_LTR, YG_DISPLAY_FLEX, YG_NODE_TYPE_DEFAULT, YG_POSITION_TYPE_RELATIVE};
use crate::edges::{no_edges, EdgeValues};
use crate::style::{default_style, default_style_spec, NodeStyle};
use crate::values::{copy_vec, Track, ONE_BITS};

verus! {

/// Everything the library keeps about a node besides its place in the tree
/// and its grid track lists.
#[derive(Clone, Copy)]
pub struct NodeData {
    pub style: NodeStyle,
    /// The display code as it was set (it distinguishes `contents`).
    pub display_mode: i32,
    /// The position type code as it was set (it distinguishes `static`).
    pub position_type_mode: i32,
    /// The index of the node's configuration.
    pub config: usize,
    pub has_new_layout: bool,
    pub is_dirty: bool,
    /// Whether a dirtied callback is registered for the node.
    pub has_dirtied_func: bool,
    /// Whether a measure callback is registered for the node.
    pub has_measure_func: bool,
    /// Whether a baseline callback is registered for the node.
    pub has_baseline_func: bool,
    pub is_reference_baseline: bool,
    pub node_type: i32,
    pub always_forms_containing_block: bool,
    /// The direction code as it was set (it may be `inherit`).
    pub direction: i32,
    /// The `flex` shorthand, as a bit pattern, when one is set.
    pub flex: Option<u32>,
    pub has_flex_grow: bool,
    pub has_flex_shrink: bool,
    pub position_edges: EdgeValues,
    pub margin_edges: EdgeValues,
    pub padding_edges: EdgeValues,
    pub border_edges: EdgeValues,
    /// The direction the node was last laid out in.
    pub layout_direction: i32,
    pub had_overflow: bool,
}

/// A Yoga configuration.
#[derive(Clone, Copy, Debug, PartialEq, Eq, Structural)]
pub struct Config {
    pub use_web_defaults: bool,
    /// Points per pixel, as a bit pattern.
    pub point_scale_factor: u32,
    pub errata: i32,
    pub experimental_web_flex_basis: bool,
}

/// A node's grid track lists.
pub struct GridTemplates {
    pub rows: Vec<Track>,
    pub columns: Vec<Track>,
    pub auto_rows: Vec<Track>,
    pub auto_columns: Vec<Track>,
}

/// The abstract value of a node's grid track lists.
#[verifier::ext_equal]
pub struct GridView {
    pub rows: Seq<Track>,
    pub columns: Seq<Track>,
    pub auto_rows: Seq<Track>,
    pub auto_columns: Seq<Track>,
}

impl GridTemplates {
    pub open spec fn view(&self) -> GridView {
        GridView {
            rows: self.rows@,
            columns: self.columns@,
            auto_rows: self.auto_rows@,
            auto_columns: self.auto_columns@,
        }
    }

    /// Empty track lists.
    pub fn new() -> (r: GridTemplates)
        ensures
            r.view() == empty_grid(),
    {
        GridTemplates { rows: Vec::new(), columns: Vec::new(), auto_rows: Vec::new(), auto_columns: Vec::new() }
    }
}

/// Grid track lists that hold no tracks.
pub open spec fn empty_grid() -> GridView {
    GridView {
        rows: Seq::empty(),
        columns: Seq::empty(),
        auto_rows: Seq::empty(),
        auto_columns: Seq::empty(),
    }
}

/// The abstract value of a node.
#[verifier::ext_equal]
pub struct NodeView {
    pub owner: Option<usize>,
    pub children: Seq<usize>,
    pub data: NodeData,
    pub grid: GridView,
}

/// The abstract value of a tree: its nodes, indexed by node id, and its
/// configurations, indexed by configuration id.
#[verifier::ext_equal]
pub struct TreeView {
    pub nodes: Seq<NodeView>,
    pub configs: Seq<Config>,
}

struct Node {
    data: NodeData,
    owner: Option<usize>,
    children: Vec<usize>,
    grid: GridTemplates,
}

impl Node {
    spec fn view(&self) -> NodeView {
        NodeView { owner: self.owner, children: self.children@, data: self.data, grid: self.grid.view() }
    }
}

/// A tree of Yoga nodes and their configurations. Node and configuration ids
/// are indices; ids are never reused.
pub struct NodeTree {
    nodes: Vec<Node>,
    configs: Vec<Config>,
    /// A rank for every node that strictly decreases from a node to its
    /// owner: a witness that the owner relation has no cycle.
    rank: Ghost<Seq<nat>>,
}

impl View for NodeTree {
    type V = TreeView;

    closed spec fn view(&self) -> TreeView {
        TreeView {
            nodes: Seq::new(self.nodes@.len(), |i: int| self.nodes@[i].view()),
            configs: self.configs@,
        }
    }
}

/// `r` ranks the nodes of `v` so that every owner ranks below the nodes it owns.
pub open spec fn rank_valid(v: TreeView, r: Seq<nat>) -> bool {
    &&& r.len() == v.nodes.len()
    &&& forall|i: int|
        0 <= i < v.nodes.len() ==> (#[trigger] v.nodes[i].owner matches Some(p) ==> (p as int) < v.nodes.len()
            && r[p as int] < r[i])
}

/// The owner relation of `v` has no cycle.
pub open spec fn acyclic(v: TreeView) -> bool {
    exists|r: Seq<nat>| rank_valid(v, r)
}

/// The walk from `n` up through the owners, given ranks that bound it.
pub open spec fn chain_of(v: TreeView, r: Seq<nat>, n: usize) -> Seq<usize>
    decreases r[n as int],
{
    if (n as int) < v.nodes.len() && (n as int) < r.len() {
        match v.nodes[n as int].owner {
            Some(p) => if (p as int) < r.len() && r[p as int] < r[n as int] {
                seq![n].add(chain_of(v, r, p))
            } else {
                seq![n]
            },
            None => seq![n],
        }
    } else {
        seq![n]
    }
}

/// The owner chain of `n`: `n`, its owner, that node's owner, and so on up to
/// a node with no owner.
pub open spec fn chain(v: TreeView, n: usize) -> Seq<usize> {
    chain_of(v, choose|r: Seq<nat>| rank_valid(v, r), n)
}

/// The structural invariant: owners and children are node ids, every node
/// that has an owner is among that owner's children, and every node's
/// configuration exists (there is always at least the default one).
pub open spec fn structure_ok(v: TreeView) -> bool {
    &&& v.nodes.len() <= usize::MAX
    &&& v.configs.len() >= 1
    &&& forall|i: int|
        0 <= i < v.nodes.len() ==> (#[trigger] v.nodes[i].owner matches Some(p) ==> (p as int) < v.nodes.len()
            && v.nodes[p as int].children.contains(i as usize))
    &&& forall|i: int, k: int|
        0 <= i < v.nodes.len() && 0 <= k < v.nodes[i].children.len() ==> (#[trigger] v.nodes[i].children[k]
            as int) < v.nodes.len()
    &&& forall|i: int| 0 <= i < v.nodes.len() ==> (#[trigger] v.nodes[i].data.config as int) < v.configs.len()
}

/// The invariant of a tree.
pub open spec fn well_formed(v: TreeView) -> bool {
    structure_ok(v) && acyclic(v)
}

/// A node marked dirty.
pub open spec fn with_dirty(nv: NodeView) -> NodeView {
    NodeView { data: NodeData { is_dirty: true, ..nv.data }, ..nv }
}

/// `v` with every node of `s` marked dirty.
pub open spec fn marked(v: TreeView, s: Seq<usize>) -> TreeView {
    TreeView {
        nodes: Seq::new(
            v.nodes.len(),
            |j: int| if s.contains(j as usize) { with_dirty(v.nodes[j]) } else { v.nodes[j] },
        ),
        configs: v.configs,
    }
}

/// The nodes of `s`, in order, that are not dirty in `v` and have a dirtied
/// callback: the callbacks that marking `s` dirty must call.
pub open spec fn newly_dirtied(v: TreeView, s: Seq<usize>) -> Seq<usize>
    decreases s.len(),
{
    if s.len() == 0 {
        Seq::empty()
    } else {
        let x = s.last();
        newly_dirtied(v, s.drop_last()) + if !v.nodes[x as int].data.is_dirty
            && v.nodes[x as int].data.has_dirtied_func {
            seq![x]
        } else {
            Seq::empty()
        }
    }
}

/// The configuration a new tree starts with (configuration 0, the default).
pub open spec fn default_config() -> Config {
    Config { use_web_defaults: false, point_scale_factor: ONE_BITS, errata: 0, experimental_web_flex_basis: false }
}

/// The data of a new node with the given configuration.
pub open spec fn fresh_data(config: usize, use_web_defaults: bool) -> NodeData {
    NodeData {
        style: default_style_spec(use_web_defaults),
        display_mode: YG_DISPLAY_FLEX,
        position_type_mode: YG_POSITION_TYPE_RELATIVE,
        config,
        has_new_layout: true,
        is_dirty: true,
        has_dirtied_func: false,
        has_measure_func: false,
        has_baseline_func: false,
        is_reference_baseline: false,
        node_type: YG_NODE_TYPE_DEFAULT,
        always_forms_containing_block: false,
        direction: YG_DIRECTION_INHERIT,
        flex: None,
        has_flex_grow: false,
        has_flex_shrink: false,
        position_edges: no_edges(),
        margin_edges: no_edges(),
        padding_edges: no_edges(),
        border_edges: no_edges(),
        layout_direction: YG_DIRECTION_LTR,
        had_overflow: false,
    }
}

/// A new node with the given configuration: no owner, no children, no tracks.
pub open spec fn fresh_node(config: usize, use_web_defaults: bool) -> NodeView {
    NodeView { owner: None, children: Seq::empty(), data: fresh_data(config, use_web_defaults), grid: empty_grid() }
}

/// The chain does not depend on which ranks bound it.
proof fn lemma_chain_of_rank_independent(v: TreeView, r1: Seq<nat>, r2: Seq<nat>, n: usize)
    requires
        rank_valid(v, r1),
        rank_valid(v, r2),
    ensures
        chain_of(v, r1, n) == chain_of(v, r2, n),
    decreases r1[n as int],
{
    if (n as int) < v.nodes.len() {
        assert(v.nodes[n as int].owner == v.nodes[n as int].owner);
        match v.nodes[n as int].owner {
            Some(p) => {
                lemma_chain_of_rank_independent(v, r1, r2, p);
            },
            None => {},
        }
    }
}

/// The chain of a node starts at the node and continues with its owner's chain.
pub proof fn lemma_chain_unfold(v: TreeView, n: usize)
    requires
        acyclic(v),
        (n as int) < v.nodes.len(),
    ensures
        chain(v, n) == match v.nodes[n as int].owner {
            Some(p) => seq![n].add(chain(v, p)),
            None => seq![n],
        },
{
    let r = choose|r: Seq<nat>| rank_valid(v, r);
    assert(v.nodes[n as int].owner == v.nodes[n as int].owner);
}

/// Along a chain the ranks strictly decrease, so its nodes are distinct;
/// every node of the chain is a node id.
proof fn lemma_chain_of_ranks(v: TreeView, r: Seq<nat>, n: usize)
    requires
        rank_valid(v, r),
        (n as int) < v.nodes.len(),
    ensures
        chain_of(v, r, n).len() >= 1,
        chain_of(v, r, n)[0] == n,
        forall|i: int| 0 <= i < chain_of(v, r, n).len() ==> (#[trigger] chain_of(v, r, n)[i] as int) < v.nodes.len(),
        forall|i: int| 0 <= i < chain_of(v, r, n).len() ==> r[#[trigger] chain_of(v, r, n)[i] as int] <= r[n as int],
        forall|i: int, j: int|
            0 <= i < j < chain_of(v, r, n).len() ==> r[chain_of(v, r, n)[i] as int] > r[chain_of(v, r, n)[j] as int],
    decreases r[n as int],
{
    assert(v.nodes[n as int].owner == v.nodes[n as int].owner);
    match v.nodes[n as int].owner {
        Some(p) => {
            lemma_chain_of_ranks(v, r, p);
            let s = chain_of(v, r, n);
            let t = chain_of(v, r, p);
            assert(s == seq![n].add(t));
            assert forall|i: int| 0 <= i < s.len() implies (#[trigger] s[i] as int) < v.nodes.len() by {
                if i > 0 {
                    assert(s[i] == t[i - 1]);
                }
            }
            assert forall|i: int| 0 <= i < s.len() implies r[#[trigger] s[i] as int] <= r[n as int] by {
                if i > 0 {
                    assert(s[i] == t[i - 1]);
                }
            }
            assert forall|i: int, j: int| 0 <= i < j < s.len() implies r[s[i] as int] > r[s[j] as int] by {
                assert(s[j] == t[j - 1]);
                if i > 0 {
                    assert(s[i] == t[i - 1]);
                } else {
                    assert(r[t[j - 1] as int] <= r[p as int]);
                }
            }
        },
        None => {},
    }
}

/// The nodes of a chain are distinct node ids, and the chain starts at its node.
pub proof fn lemma_chain_facts(v: TreeView, n: usize)
    requires
        acyclic(v),
        (n as int) < v.nodes.len(),
    ensures
        chain(v, n).len() >= 1,
        chain(v, n)[0] == n,
        forall|i: int| 0 <= i < chain(v, n).len() ==> (#[trigger] chain(v, n)[i] as int) < v.nodes.len(),
        chain(v, n).no_duplicates(),
{
    let r = choose|r: Seq<nat>| rank_valid(v, r);
    lemma_chain_of_ranks(v, r, n);
    let s = chain(v, n);
    assert forall|i: int, j: int| 0 <= i < s.len() && 0 <= j < s.len() && i != j implies s[i] != s[j] by {
        if i < j {
            assert(r[s[i] as int] > r[s[j] as int]);
        } else {
            assert(r[s[j] as int] > r[s[i] as int]);
        }
    }
}

/// Marking one more node: the node is marked and, if it was clean with a
/// dirtied callback, it joins the callbacks to call.
proof fn lemma_marked_push(v: TreeView, s: Seq<usize>, c: usize)
    requires
        !s.contains(c),
        (c as int) < v.nodes.len(),
        v.nodes.len() <= usize::MAX,
    ensures
        marked(v, s.push(c)) == (TreeView {
            nodes: marked(v, s).nodes.update(c as int, with_dirty(v.nodes[c as int])),
            configs: v.configs,
        }),
        newly_dirtied(v, s.push(c)) == newly_dirtied(v, s) + if !v.nodes[c as int].data.is_dirty
            && v.nodes[c as int].data.has_dirtied_func {
            seq![c]
        } else {
            Seq::empty()
        },
{
    assert(s.push(c).drop_last() =~= s);
    let lhs = marked(v, s.push(c));
    let rhs = TreeView {
        nodes: marked(v, s).nodes.update(c as int, with_dirty(v.nodes[c as int])),
        configs: v.configs,
    };
    assert forall|j: int| 0 <= j < v.nodes.len() implies lhs.nodes[j] == rhs.nodes[j] by {
        if j != c as int {
            assert(s.push(c).contains(j as usize) == s.contains(j as usize)) by {
                if s.push(c).contains(j as usize) {
                    let i = choose|i: int| 0 <= i < s.push(c).len() && s.push(c)[i] == j as usize;
                    assert(i < s.len());
                    assert(s[i] == j as usize);
                }
            }
        } else {
            assert(s.push(c)[s.len() as int] == c);
        }
    }
    assert(lhs =~= rhs);
}

/// Two views with the same owners: same chains, and ranks that bound one bound the other.
proof fn lemma_same_owners(v1: TreeView, v2: TreeView, r: Seq<nat>, n: usize)
    requires
        v1.nodes.len() == v2.nodes.len(),
        forall|i: int| 0 <= i < v1.nodes.len() ==> #[trigger] v1.nodes[i].owner == v2.nodes[i].owner,
    ensures
        rank_valid(v1, r) ==> rank_valid(v2, r),
        chain_of(v1, r, n) == chain_of(v2, r, n),
    decreases r[n as int],
{
    if rank_valid(v1, r) {
        assert forall|i: int| 0 <= i < v2.nodes.len() implies (#[trigger] v2.nodes[i].owner matches Some(p) ==> (p as int)
            < v2.nodes.len() && r[p as int] < r[i]) by {
            assert(v1.nodes[i].owner == v2.nodes[i].owner);
        }
    }
    if (n as int) < v1.nodes.len() {
        assert(v1.nodes[n as int].owner == v2.nodes[n as int].owner);
        match v1.nodes[n as int].owner {
            Some(p) => {
                if (p as int) < r.len() && r[p as int] < r[n as int] {
                    lemma_same_owners(v1, v2, r, p);
                }
            },
            None => {},
        }
    }
}

/// Marking nodes dirty keeps the invariant and the chains.
proof fn lemma_marked_keeps_structure(v: TreeView, s: Seq<usize>, r: Seq<nat>)
    requires
        structure_ok(v),
        rank_valid(v, r),
    ensures
        structure_ok(marked(v, s)),
        rank_valid(marked(v, s), r),
        forall|n: usize| #[trigger] chain_of(marked(v, s), r, n) == chain_of(v, r, n),
{
    let m = marked(v, s);
    assert forall|i: int| 0 <= i < v.nodes.len() implies #[trigger] v.nodes[i].owner == m.nodes[i].owner by {}
    assert forall|n: usize| #[trigger] chain_of(m, r, n) == chain_of(v, r, n) by {
        lemma_same_owners(v, m, r, n);
    }
    lemma_same_owners(v, m, r, 0);
    assert forall|i: int| 0 <= i < m.nodes.len() implies (#[trigger] m.nodes[i].owner matches Some(p) ==> (p as int)
        < m.nodes.len() && m.nodes[p as int].children.contains(i as usize)) by {
        assert(v.nodes[i].owner == m.nodes[i].owner);
        match v.nodes[i].owner {
            Some(p) => {
                assert(m.nodes[p as int].children == v.nodes[p as int].children);
            },
            None => {},
        }
    }
    assert forall|i: int, k: int|
        0 <= i < m.nodes.len() && 0 <= k < m.nodes[i].children.len() implies (#[trigger] m.nodes[i].children[k]
        as int) < m.nodes.len() by {
        assert(m.nodes[i].children == v.nodes[i].children);
    }
    assert forall|i: int| 0 <= i < m.nodes.len() implies (#[trigger] m.nodes[i].data.config as int) < m.configs.len() by {
        assert(m.nodes[i].data.config == v.nodes[i].data.config);
    }
}

/// Marking nothing changes nothing.
proof fn lemma_marked_empty(v: TreeView)
    ensures
        marked(v, Seq::empty()) == v,
        newly_dirtied(v, Seq::empty()) == Seq::<usize>::empty(),
{
    assert(marked(v, Seq::empty()) =~= v);
}

/// The index of the first occurrence of `x` in `s` (the length of `s` when there is none).
pub open spec fn first_index(s: Seq<usize>, x: usize) -> int
    decreases s.len(),
{
    if s.len() == 0 {
        0
    } else if s[0] == x {
        0
    } else {
        1 + first_index(s.drop_first(), x)
    }
}

/// `first_index` finds the first occurrence.
pub proof fn lemma_first_index(s: Seq<usize>, x: usize)
    ensures
        0 <= first_index(s, x) <= s.len(),
        forall|j: int| 0 <= j < first_index(s, x) ==> s[j] != x,
        s.contains(x) ==> first_index(s, x) < s.len() && s[first_index(s, x)] == x,
        !s.contains(x) ==> first_index(s, x) == s.len(),
    decreases s.len(),
{
    if s.len() > 0 {
        lemma_first_index(s.drop_first(), x);
        if s[0] != x {
            assert forall|j: int| 0 <= j < first_index(s, x) implies s[j] != x by {
                if j > 0 {
                    assert(s[j] == s.drop_first()[j - 1]);
                }
            }
            if s.contains(x) {
                let k = choose|k: int| 0 <= k < s.len() && s[k] == x;
                assert(s.drop_first()[k - 1] == x);
            }
            if !s.contains(x) {
                assert(!s.drop_first().contains(x)) by {
                    if s.drop_first().contains(x) {
                        let k = choose|k: int| 0 <= k < s.drop_first().len() && s.drop_first()[k] == x;
                        assert(s[k + 1] == x);
                    }
                }
            }
        }
    }
}

/// `v` with the owner of `x` replaced by `o`.
pub open spec fn with_owner(v: TreeView, x: usize, o: Option<usize>) -> TreeView {
    TreeView { nodes: v.nodes.update(x as int, NodeView { owner: o, ..v.nodes[x as int] }), configs: v.configs }
}

/// `v` with the children of `x` replaced by `cs`.
pub open spec fn with_children(v: TreeView, x: usize, cs: Seq<usize>) -> TreeView {
    TreeView { nodes: v.nodes.update(x as int, NodeView { children: cs, ..v.nodes[x as int] }), configs: v.configs }
}

/// `v` with the data of `x` replaced by `d`.
pub open spec fn with_data(v: TreeView, x: usize, d: NodeData) -> TreeView {
    TreeView { nodes: v.nodes.update(x as int, NodeView { data: d, ..v.nodes[x as int] }), configs: v.configs }
}

/// `v` with `child` taken out of `node`'s children (its first occurrence)
/// and left without an owner.
pub open spec fn detached(v: TreeView, node: usize, child: usize) -> TreeView {
    let cs = v.nodes[node as int].children;
    with_owner(with_children(v, node, cs.remove(first_index(cs, child))), child, None)
}

/// `v` with every node of `xs` left without an owner.
pub open spec fn cut_all(v: TreeView, xs: Seq<usize>) -> TreeView {
    TreeView {
        nodes: Seq::new(
            v.nodes.len(),
            |j: int| if xs.contains(j as usize) { NodeView { owner: None, ..v.nodes[j] } } else { v.nodes[j] },
        ),
        configs: v.configs,
    }
}

/// Removing an owner keeps the invariant and the ranks.
proof fn lemma_cut_keeps_structure(v: TreeView, r: Seq<nat>, x: usize)
    requires
        structure_ok(v),
        rank_valid(v, r),
        (x as int) < v.nodes.len(),
    ensures
        structure_ok(with_owner(v, x, None)),
        rank_valid(with_owner(v, x, None), r),
{
    let w = with_owner(v, x, None);
    assert forall|i: int| 0 <= i < w.nodes.len() implies (#[trigger] w.nodes[i].owner matches Some(p) ==> (p as int)
        < w.nodes.len() && w.nodes[p as int].children.contains(i as usize)) by {
        if i != x as int {
            assert(w.nodes[i] == v.nodes[i]);
            match v.nodes[i].owner {
                Some(p) => {
                    assert(w.nodes[p as int].children == v.nodes[p as int].children);
                },
                None => {},
            }
        }
    }
    assert forall|i: int, k: int|
        0 <= i < w.nodes.len() && 0 <= k < w.nodes[i].children.len() implies (#[trigger] w.nodes[i].children[k]
        as int) < w.nodes.len() by {
        assert(w.nodes[i].children == v.nodes[i].children);
    }
    assert forall|i: int| 0 <= i < w.nodes.len() implies (#[trigger] w.nodes[i].data.config as int) < w.configs.len() by {
        assert(w.nodes[i].data == v.nodes[i].data);
    }
    assert forall|i: int| 0 <= i < w.nodes.len() implies (#[trigger] w.nodes[i].owner matches Some(p) ==> (p as int)
        < w.nodes.len() && r[p as int] < r[i]) by {
        if i != x as int {
            assert(w.nodes[i] == v.nodes[i]);
        }
    }
}

/// Taking a child out of a node keeps the invariant and the ranks.
proof fn lemma_detach_keeps_structure(v: TreeView, r: Seq<nat>, node: usize, child: usize)
    requires
        structure_ok(v),
        rank_valid(v, r),
        (node as int) < v.nodes.len(),
        (child as int) < v.nodes.len(),
        v.nodes[node as int].children.contains(child),
    ensures
        structure_ok(detached(v, node, child)),
        rank_valid(detached(v, node, child), r),
{
    let cs = v.nodes[node as int].children;
    lemma_first_index(cs, child);
    let fi = first_index(cs, child);
    let cs2 = cs.remove(fi);
    let w = with_children(v, node, cs2);
    assert forall|i: int| 0 <= i < w.nodes.len() implies (#[trigger] w.nodes[i].owner matches Some(p) ==> (p as int)
        < w.nodes.len() && (i as usize != child ==> w.nodes[p as int].children.contains(i as usize))) by {
        assert(w.nodes[i].owner == v.nodes[i].owner);
        match v.nodes[i].owner {
            Some(p) => {
                if p == node && i as usize != child {
                    let k = choose|k: int| 0 <= k < cs.len() && cs[k] == i as usize;
                    if k < fi {
                        assert(cs2[k] == i as usize);
                    } else {
                        assert(k != fi);
                        assert(cs2[k - 1] == i as usize);
                    }
                } else if p != node {
                    assert(w.nodes[p as int].children == v.nodes[p as int].children);
                }
            },
            None => {},
        }
    }
    assert forall|i: int, k: int|
        0 <= i < w.nodes.len() && 0 <= k < w.nodes[i].children.len() implies (#[trigger] w.nodes[i].children[k]
        as int) < w.nodes.len() by {
        if i == node as int {
            if k < fi {
                assert(cs2[k] == cs[k]);
            } else {
                assert(cs2[k] == cs[k + 1]);
            }
        } else {
            assert(w.nodes[i] == v.nodes[i]);
        }
    }
    assert forall|i: int| 0 <= i < w.nodes.len() implies (#[trigger] w.nodes[i].data.config as int) < w.configs.len() by {
        assert(w.nodes[i].data == v.nodes[i].data);
    }
    let d = with_owner(w, child, None);
    assert(d == detached(v, node, child));
    assert forall|i: int| 0 <= i < d.nodes.len() implies (#[trigger] d.nodes[i].owner matches Some(p) ==> (p as int)
        < d.nodes.len() && d.nodes[p as int].children.contains(i as usize)) by {
        if i != child as int {
            assert(d.nodes[i].owner == w.nodes[i].owner);
            match w.nodes[i].owner {
                Some(p) => {
                    assert(d.nodes[p as int].children == w.nodes[p as int].children);
                },
                None => {},
            }
        }
    }
    assert forall|i: int, k: int|
        0 <= i < d.nodes.len() && 0 <= k < d.nodes[i].children.len() implies (#[trigger] d.nodes[i].children[k]
        as int) < d.nodes.len() by {
        assert(d.nodes[i].children == w.nodes[i].children);
    }
    assert forall|i: int| 0 <= i < d.nodes.len() implies (#[trigger] d.nodes[i].data.config as int) < d.configs.len() by {
        assert(d.nodes[i].data == w.nodes[i].data);
    }
    assert forall|i: int| 0 <= i < d.nodes.len() implies (#[trigger] d.nodes[i].owner matches Some(p) ==> (p as int)
        < d.nodes.len() && r[p as int] < r[i]) by {
        if i != child as int {
            assert(d.nodes[i].owner == v.nodes[i].owner);
        }
    }
}

/// `v` with `child` owned by `node` and placed among its children at
/// `index`, or at the end when `index` is past the end.
pub open spec fn attached(v: TreeView, node: usize, child: usize, index: usize) -> TreeView {
    let cs = v.nodes[node as int].children;
    let at = if (index as int) <= cs.len() { index as int } else { cs.len() as int };
    with_children(with_owner(v, child, Some(node)), node, cs.insert(at, child))
}

/// `v` once `child` has been taken out of its owner's children, if it has an
/// owner, with that owner's chain marked dirty.
pub open spec fn released(v: TreeView, child: usize) -> TreeView {
    match v.nodes[child as int].owner {
        Some(prev) => {
            let d = detached(v, prev, child);
            marked(d, chain(d, prev))
        },
        None => v,
    }
}

/// The dirtied callbacks that releasing `child` calls.
pub open spec fn released_dirtied(v: TreeView, child: usize) -> Seq<usize> {
    match v.nodes[child as int].owner {
        Some(prev) => {
            let d = detached(v, prev, child);
            newly_dirtied(d, chain(d, prev))
        },
        None => Seq::empty(),
    }
}

/// The tree after inserting `child` into `node` at `index` (Yoga's
/// `YGNodeInsertChild`): `child` is released from its owner, attached to
/// `node`, and `node`'s chain is marked dirty.
pub open spec fn inserted(v: TreeView, node: usize, child: usize, index: usize) -> TreeView {
    let a = attached(released(v, child), node, child, index);
    marked(a, chain(a, node))
}

/// The dirtied callbacks that inserting `child` into `node` calls.
pub open spec fn inserted_dirtied(v: TreeView, node: usize, child: usize, index: usize) -> Seq<usize> {
    let a = attached(released(v, child), node, child, index);
    released_dirtied(v, child) + newly_dirtied(a, chain(a, node))
}

/// Taking away owners only shortens chains: every node on a chain after
/// the change was on it before.
proof fn lemma_cut_shortens_chain(v: TreeView, w: TreeView, r: Seq<nat>, n: usize)
    requires
        rank_valid(v, r),
        w.nodes.len() == v.nodes.len(),
        forall|i: int| 0 <= i < v.nodes.len() ==> #[trigger] w.nodes[i].owner == v.nodes[i].owner || w.nodes[i].owner is None,
    ensures
        rank_valid(w, r),
        forall|x: usize| chain_of(w, r, n).contains(x) ==> chain_of(v, r, n).contains(x),
    decreases r[n as int],
{
    assert forall|i: int| 0 <= i < w.nodes.len() implies (#[trigger] w.nodes[i].owner matches Some(p) ==> (p as int)
        < w.nodes.len() && r[p as int] < r[i]) by {
        assert(w.nodes[i].owner == v.nodes[i].owner || w.nodes[i].owner is None);
    }
    if (n as int) < v.nodes.len() {
        assert(w.nodes[n as int].owner == v.nodes[n as int].owner || w.nodes[n as int].owner is None);
        match w.nodes[n as int].owner {
            Some(p) => {
                lemma_cut_shortens_chain(v, w, r, p);
                assert forall|x: usize| chain_of(w, r, n).contains(x) implies chain_of(v, r, n).contains(x) by {
                    let s = chain_of(w, r, n);
                    let t = chain_of(v, r, n);
                    assert(s == seq![n].add(chain_of(w, r, p)));
                    assert(t == seq![n].add(chain_of(v, r, p)));
                    let k = choose|k: int| 0 <= k < s.len() && s[k] == x;
                    if k == 0 {
                        assert(t[0] == x);
                    } else {
                        assert(chain_of(w, r, p)[k - 1] == x);
                        assert(chain_of(v, r, p).contains(x));
                        let k2 = choose|k2: int| 0 <= k2 < chain_of(v, r, p).len() && chain_of(v, r, p)[k2] == x;
                        assert(t[k2 + 1] == x);
                    }
                }
            },
            None => {
                assert forall|x: usize| chain_of(w, r, n).contains(x) implies chain_of(v, r, n).contains(x) by {
                    assert(chain_of(w, r, n) == seq![n]);
                    lemma_chain_of_ranks(v, r, n);
                    assert(chain_of(v, r, n)[0] == n);
                }
            },
        }
    }
}

/// Releasing `child` keeps the invariant and the ranks, leaves `child`
/// without an owner, and keeps `child` off any chain it was not on.
proof fn lemma_release_keeps_structure(v: TreeView, r: Seq<nat>, child: usize, node: usize)
    requires
        structure_ok(v),
        rank_valid(v, r),
        (child as int) < v.nodes.len(),
        (node as int) < v.nodes.len(),
        !chain_of(v, r, node).contains(child),
    ensures
        structure_ok(released(v, child)),
        rank_valid(released(v, child), r),
        released(v, child).nodes[child as int].owner is None,
        !chain_of(released(v, child), r, node).contains(child),
{
    match v.nodes[child as int].owner {
        Some(prev) => {
            assert(v.nodes[prev as int].children.contains(child));
            let d = detached(v, prev, child);
            lemma_detach_keeps_structure(v, r, prev, child);
            lemma_cut_shortens_chain(v, d, r, node);
            lemma_marked_keeps_structure(d, chain(d, prev), r);
        },
        None => {},
    }
}

/// The ranks after attaching `child` under `node`: every node whose chain
/// passes through `child` moves up past `node`.
pub open spec fn attach_ranks(v: TreeView, r: Seq<nat>, node: usize, child: usize) -> Seq<nat> {
    Seq::new(
        r.len(),
        |x: int| r[x] + if chain_of(v, r, x as usize).contains(child) { r[node as int] + 1 } else { 0 },
    )
}

/// Attaching a node that has no owner below a node whose chain does not pass
/// through it keeps the invariant, with the moved ranks.
proof fn lemma_attach_keeps_structure(v: TreeView, r: Seq<nat>, node: usize, child: usize, index: usize)
    requires
        structure_ok(v),
        rank_valid(v, r),
        (node as int) < v.nodes.len(),
        (child as int) < v.nodes.len(),
        v.nodes[child as int].owner is None,
        !chain_of(v, r, node).contains(child),
    ensures
        structure_ok(attached(v, node, child, index)),
        rank_valid(attached(v, node, child, index), attach_ranks(v, r, node, child)),
{
    lemma_chain_of_ranks(v, r, node);
    assert(node != child);
    let a = attached(v, node, child, index);
    let r2 = attach_ranks(v, r, node, child);
    let cs = v.nodes[node as int].children;
    let at = if (index as int) <= cs.len() { index as int } else { cs.len() as int };
    let cs2 = cs.insert(at, child);
    assert(a.nodes[node as int].children == cs2);
    assert(a.nodes[child as int].owner == Some(node));
    assert(cs2[at] == child);
    assert forall|i: int| 0 <= i < a.nodes.len() implies (#[trigger] a.nodes[i].owner matches Some(p) ==> (p as int)
        < a.nodes.len() && a.nodes[p as int].children.contains(i as usize)) by {
        if i == child as int {
            assert(cs2.contains(child));
        } else {
            assert(a.nodes[i].owner == v.nodes[i].owner);
            match v.nodes[i].owner {
                Some(p) => {
                    if p == node {
                        let k = choose|k: int| 0 <= k < cs.len() && cs[k] == i as usize;
                        if k < at {
                            assert(cs2[k] == i as usize);
                        } else {
                            assert(cs2[k + 1] == i as usize);
                        }
                    } else {
                        assert(a.nodes[p as int].children == v.nodes[p as int].children);
                    }
                },
                None => {},
            }
        }
    }
    assert forall|i: int, k: int|
        0 <= i < a.nodes.len() && 0 <= k < a.nodes[i].children.len() implies (#[trigger] a.nodes[i].children[k]
        as int) < a.nodes.len() by {
        if i == node as int {
            if k < at {
                assert(cs2[k] == cs[k]);
            } else if k > at {
                assert(cs2[k] == cs[k - 1]);
            }
        } else {
            assert(a.nodes[i].children == v.nodes[i].children);
        }
    }
    assert forall|i: int| 0 <= i < a.nodes.len() implies (#[trigger] a.nodes[i].data.config as int) < a.configs.len() by {
        assert(a.nodes[i].data == v.nodes[i].data);
    }
    lemma_chain_of_ranks(v, r, child);
    assert(chain_of(v, r, child).contains(child)) by {
        assert(chain_of(v, r, child)[0] == child);
    }
    assert forall|i: int| 0 <= i < a.nodes.len() implies (#[trigger] a.nodes[i].owner matches Some(p) ==> (p as int)
        < a.nodes.len() && r2[p as int] < r2[i]) by {
        if i == child as int {
            assert(r2[node as int] == r[node as int]);
        } else {
            assert(a.nodes[i].owner == v.nodes[i].owner);
            match v.nodes[i].owner {
                Some(p) => {
                    let si = chain_of(v, r, i as usize);
                    let sp = chain_of(v, r, p);
                    assert(si == seq![i as usize].add(sp));
                    assert(si.contains(child) == sp.contains(child)) by {
                        if si.contains(child) {
                            let k = choose|k: int| 0 <= k < si.len() && si[k] == child;
                            assert(k > 0);
                            assert(sp[k - 1] == child);
                        }
                        if sp.contains(child) {
                            let k = choose|k: int| 0 <= k < sp.len() && sp[k] == child;
                            assert(si[k + 1] == child);
                        }
                    }
                },
                None => {},
            }
        }
    }
}

/// Re-owning one node below a node whose chain does not pass through it
/// keeps the owner relation acyclic, with the moved ranks.
proof fn lemma_reattach_ranks(v: TreeView, w: TreeView, r: Seq<nat>, node: usize, child: usize)
    requires
        rank_valid(v, r),
        (node as int) < v.nodes.len(),
        (child as int) < v.nodes.len(),
        !chain_of(v, r, node).contains(child),
        v.nodes.len() <= usize::MAX,
        w.nodes.len() == v.nodes.len(),
        w.nodes[child as int].owner == Some(node),
        forall|i: int| 0 <= i < v.nodes.len() && i != child as int ==> #[trigger] w.nodes[i].owner == v.nodes[i].owner,
    ensures
        rank_valid(w, attach_ranks(v, r, node, child)),
{
    let r2 = attach_ranks(v, r, node, child);
    lemma_chain_of_ranks(v, r, node);
    lemma_chain_of_ranks(v, r, child);
    assert(chain_of(v, r, child).contains(child)) by {
        assert(chain_of(v, r, child)[0] == child);
    }
    assert forall|i: int| 0 <= i < w.nodes.len() implies (#[trigger] w.nodes[i].owner matches Some(p) ==> (p as int)
        < w.nodes.len() && r2[p as int] < r2[i]) by {
        if i == child as int {
            assert(r2[node as int] == r[node as int]);
        } else {
            assert(w.nodes[i].owner == v.nodes[i].owner);
            match v.nodes[i].owner {
                Some(p) => {
                    let si = chain_of(v, r, i as usize);
                    let sp = chain_of(v, r, p);
                    assert(si == seq![i as usize].add(sp));
                    assert(si.contains(child) == sp.contains(child)) by {
                        if si.contains(child) {
                            let k = choose|k: int| 0 <= k < si.len() && si[k] == child;
                            assert(k > 0);
                            assert(sp[k - 1] == child);
                        }
                        if sp.contains(child) {
                            let k = choose|k: int| 0 <= k < sp.len() && sp[k] == child;
                            assert(si[k + 1] == child);
                        }
                    }
                },
                None => {},
            }
        }
    }
}

/// A chain stays the same when no node on it changes owner.
proof fn lemma_chain_off_path(v: TreeView, w: TreeView, rv: Seq<nat>, rw: Seq<nat>, n: usize)
    requires
        rank_valid(v, rv),
        rank_valid(w, rw),
        w.nodes.len() == v.nodes.len(),
        (n as int) < v.nodes.len(),
        forall|x: usize| #[trigger] chain_of(v, rv, n).contains(x) ==> w.nodes[x as int].owner == v.nodes[x as int].owner,
    ensures
        chain_of(w, rw, n) == chain_of(v, rv, n),
    decreases rv[n as int],
{
    lemma_chain_of_ranks(v, rv, n);
    let s = chain_of(v, rv, n);
    assert(s[0] == n);
    assert(s.contains(n));
    assert(w.nodes[n as int].owner == v.nodes[n as int].owner);
    match v.nodes[n as int].owner {
        Some(p) => {
            assert(s == seq![n].add(chain_of(v, rv, p)));
            assert forall|x: usize| #[trigger] chain_of(v, rv, p).contains(x) implies w.nodes[x as int].owner
                == v.nodes[x as int].owner by {
                let k = choose|k: int| 0 <= k < chain_of(v, rv, p).len() && chain_of(v, rv, p)[k] == x;
                assert(s[k + 1] == x);
                assert(s.contains(x));
            }
            lemma_chain_off_path(v, w, rv, rw, p);
        },
        None => {},
    }
}

/// `v` with every child of `node` left without an owner and `node` left with no children.
pub open spec fn orphaned(v: TreeView, node: usize) -> TreeView {
    with_children(cut_all(v, v.nodes[node as int].children), node, Seq::empty())
}

/// Taking the children away from a node keeps the invariant and the ranks.
proof fn lemma_orphan_keeps_structure(v: TreeView, r: Seq<nat>, node: usize)
    requires
        structure_ok(v),
        rank_valid(v, r),
        (node as int) < v.nodes.len(),
    ensures
        structure_ok(orphaned(v, node)),
        rank_valid(orphaned(v, node), r),
        rank_valid(cut_all(v, v.nodes[node as int].children), r),
{
    let cs = v.nodes[node as int].children;
    let c = cut_all(v, cs);
    let o = orphaned(v, node);
    lemma_cut_shortens_chain(v, c, r, node);
    lemma_cut_shortens_chain(v, o, r, node);
    assert forall|i: int| 0 <= i < o.nodes.len() implies (#[trigger] o.nodes[i].owner matches Some(p) ==> (p as int)
        < o.nodes.len() && o.nodes[p as int].children.contains(i as usize)) by {
        match o.nodes[i].owner {
            Some(p) => {
                assert(!cs.contains(i as usize));
                assert(v.nodes[i].owner == Some(p));
                assert(p != node);
                assert(o.nodes[p as int].children == v.nodes[p as int].children);
            },
            None => {},
        }
    }
    assert forall|i: int, k: int|
        0 <= i < o.nodes.len() && 0 <= k < o.nodes[i].children.len() implies (#[trigger] o.nodes[i].children[k]
        as int) < o.nodes.len() by {
        assert(i != node as int);
        assert(o.nodes[i].children == v.nodes[i].children);
    }
    assert forall|i: int| 0 <= i < o.nodes.len() implies (#[trigger] o.nodes[i].data.config as int) < o.configs.len() by {
        assert(o.nodes[i].data == v.nodes[i].data);
    }
}

/// Swapping keeps the invariant, with the moved ranks.
proof fn lemma_swap_keeps_structure(v0: TreeView, r0: Seq<nat>, node: usize, child: usize, index: usize)
    requires
        structure_ok(v0),
        rank_valid(v0, r0),
        (node as int) < v0.nodes.len(),
        (child as int) < v0.nodes.len(),
        (index as int) < v0.nodes[node as int].children.len(),
        !chain_of(with_owner(v0, v0.nodes[node as int].children[index as int], None), r0, node).contains(child),
    ensures
        structure_ok(swapped(v0, node, child, index)),
        rank_valid(
            swapped(v0, node, child, index),
            attach_ranks(with_owner(v0, v0.nodes[node as int].children[index as int], None), r0, node, child),
        ),
{
    let cs = v0.nodes[node as int].children;
    let old_child = cs[index as int];
    let v1 = with_owner(v0, old_child, None);
    let s = swapped(v0, node, child, index);
    lemma_cut_keeps_structure(v0, r0, old_child);
    lemma_reattach_ranks(v1, s, r0, node, child);
    let cs2 = cs.update(index as int, child);
    assert forall|i: int| 0 <= i < s.nodes.len() implies (#[trigger] s.nodes[i].owner matches Some(p) ==> (p
        as int) < s.nodes.len() && s.nodes[p as int].children.contains(i as usize)) by {
        if i == child as int {
            assert(cs2[index as int] == child);
        } else if i != old_child as int {
            assert(s.nodes[i].owner == v0.nodes[i].owner);
            match v0.nodes[i].owner {
                Some(p) => {
                    if p == node {
                        let k = choose|k: int| 0 <= k < cs.len() && cs[k] == i as usize;
                        assert(k != index as int);
                        assert(cs2[k] == i as usize);
                    } else {
                        assert(s.nodes[p as int].children == v0.nodes[p as int].children);
                    }
                },
                None => {},
            }
        }
    }
    assert forall|i: int, k: int|
        0 <= i < s.nodes.len() && 0 <= k < s.nodes[i].children.len() implies (#[trigger] s.nodes[i].children[k]
        as int) < s.nodes.len() by {
        if i == node as int {
            if k != index as int {
                assert(cs2[k] == cs[k]);
            }
        } else {
            assert(s.nodes[i].children == v0.nodes[i].children);
        }
    }
    assert forall|i: int| 0 <= i < s.nodes.len() implies (#[trigger] s.nodes[i].data.config as int) < s.configs.len() by {
        assert(s.nodes[i].data == v0.nodes[i].data);
    }
}

/// The tree after swapping `child` into `node`'s children at `index` (Yoga's
/// `YGNodeSwapChild`): the child that was there loses its owner, `child`
/// takes its place and is owned by `node`.
pub open spec fn swapped(v: TreeView, node: usize, child: usize, index: usize) -> TreeView {
    let cs = v.nodes[node as int].children;
    with_children(with_owner(with_owner(v, cs[index as int], None), child, Some(node)), node, cs.update(index as int, child))
}

/// The tree after inserting each of `cs` into `node` in turn, the one at
/// position `i` at index `i`.
pub open spec fn inserted_all(v: TreeView, node: usize, cs: Seq<usize>) -> TreeView
    decreases cs.len(),
{
    if cs.len() == 0 {
        v
    } else {
        inserted(inserted_all(v, node, cs.drop_last()), node, cs.last(), (cs.len() - 1) as usize)
    }
}

/// The dirtied callbacks that inserting each of `cs` into `node` calls, in order.
pub open spec fn inserted_all_dirtied(v: TreeView, node: usize, cs: Seq<usize>) -> Seq<usize>
    decreases cs.len(),
{
    if cs.len() == 0 {
        Seq::empty()
    } else {
        inserted_all_dirtied(v, node, cs.drop_last()) + inserted_dirtied(
            inserted_all(v, node, cs.drop_last()),
            node,
            cs.last(),
            (cs.len() - 1) as usize,
        )
    }
}

/// Inserting a child below a node leaves that node's own chain as it was.
proof fn lemma_insert_keeps_chain(v: TreeView, r: Seq<nat>, node: usize, child: usize, index: usize)
    requires
        structure_ok(v),
        rank_valid(v, r),
        (node as int) < v.nodes.len(),
        (child as int) < v.nodes.len(),
        !chain_of(v, r, node).contains(child),
    ensures
        chain(inserted(v, node, child, index), node) == chain(v, node),
        well_formed(inserted(v, node, child, index)),
{
    lemma_release_keeps_structure(v, r, child, node);
    let rel = released(v, child);
    lemma_chain_of_ranks(v, r, node);
    assert forall|x: usize| #[trigger] chain_of(v, r, node).contains(x) implies rel.nodes[x as int].owner
        == v.nodes[x as int].owner by {
        assert(x != child);
        match v.nodes[child as int].owner {
            Some(prev) => {
                let d = detached(v, prev, child);
                assert(d.nodes[x as int].owner == v.nodes[x as int].owner);
            },
            None => {},
        }
    }
    lemma_chain_off_path(v, rel, r, r, node);
    let a = attached(rel, node, child, index);
    lemma_attach_keeps_structure(rel, r, node, child, index);
    let ra = attach_ranks(rel, r, node, child);
    lemma_chain_of_ranks(rel, r, node);
    assert forall|x: usize| #[trigger] chain_of(rel, r, node).contains(x) implies a.nodes[x as int].owner
        == rel.nodes[x as int].owner by {
        assert(x != child);
    }
    lemma_chain_off_path(rel, a, r, ra, node);
    let m = marked(a, chain(a, node));
    lemma_marked_keeps_structure(a, chain(a, node), ra);
    let rc = choose|q: Seq<nat>| rank_valid(v, q);
    lemma_chain_of_rank_independent(v, rc, r, node);
    let rm = choose|q: Seq<nat>| rank_valid(m, q);
    lemma_chain_of_rank_independent(m, rm, ra, node);
}

/// `v` with `node` reset to a new node's data (Yoga's `YGNodeReset`), keeping
/// its configuration.
pub open spec fn reset_node(v: TreeView, node: usize) -> TreeView {
    let nv = v.nodes[node as int];
    TreeView {
        nodes: v.nodes.update(
            node as int,
            NodeView {
                data: fresh_data(nv.data.config, v.configs[nv.data.config as int].use_web_defaults),
                grid: empty_grid(),
                ..nv
            },
        ),
        configs: v.configs,
    }
}

/// A shallow copy of a node (Yoga's `YGNodeClone`): no owner, the same
/// children, style and callbacks, a fresh layout, new and dirty.
pub open spec fn cloned_node(nv: NodeView) -> NodeView {
    NodeView {
        owner: None,
        children: nv.children,
        data: NodeData {
            has_new_layout: true,
            is_dirty: true,
            layout_direction: YG_DIRECTION_LTR,
            had_overflow: false,
            ..nv.data
        },
        grid: nv.grid,
    }
}

/// The tree after `node`'s data becomes `nd` and its chain is marked dirty.
pub open spec fn restyled(v: TreeView, node: usize, nd: NodeData) -> TreeView {
    let w = with_data(v, node, nd);
    marked(w, chain(w, node))
}

/// The dirtied callbacks that `restyled` calls.
pub open spec fn restyled_dirtied(v: TreeView, node: usize, nd: NodeData) -> Seq<usize> {
    let w = with_data(v, node, nd);
    newly_dirtied(w, chain(w, node))
}

/// `new` and `dirtied` are the tree and the callbacks after `node`'s data
/// becomes `nd` and its chain is marked dirty.
pub open spec fn restyled_to(v: TreeView, new: TreeView, dirtied: Seq<usize>, node: usize, nd: NodeData) -> bool {
    new == restyled(v, node, nd) && dirtied == restyled_dirtied(v, node, nd)
}

/// Replacing a node's data (keeping it on an existing configuration) keeps
/// the view well formed.
pub proof fn lemma_with_data_view_ok(v: TreeView, node: usize, nd: NodeData)
    requires
        well_formed(v),
        (node as int) < v.nodes.len(),
        (nd.config as int) < v.configs.len(),
    ensures
        well_formed(with_data(v, node, nd)),
{
    let r = choose|r: Seq<nat>| rank_valid(v, r);
    lemma_with_data_keeps_structure(v, r, node, nd);
}

/// Replacing a node's data (keeping it on an existing configuration) keeps
/// the invariant, the ranks and every chain.
proof fn lemma_with_data_keeps_structure(v: TreeView, r: Seq<nat>, node: usize, nd: NodeData)
    requires
        structure_ok(v),
        rank_valid(v, r),
        (node as int) < v.nodes.len(),
        (nd.config as int) < v.configs.len(),
    ensures
        structure_ok(with_data(v, node, nd)),
        rank_valid(with_data(v, node, nd), r),
        forall|n: usize| #[trigger] chain_of(with_data(v, node, nd), r, n) == chain_of(v, r, n),
{
    let w = with_data(v, node, nd);
    assert forall|i: int| 0 <= i < v.nodes.len() implies #[trigger] v.nodes[i].owner == w.nodes[i].owner by {}
    assert forall|n: usize| #[trigger] chain_of(w, r, n) == chain_of(v, r, n) by {
        lemma_same_owners(v, w, r, n);
    }
    lemma_same_owners(v, w, r, 0);
    assert forall|i: int| 0 <= i < w.nodes.len() implies (#[trigger] w.nodes[i].owner matches Some(p) ==> (p as int)
        < w.nodes.len() && w.nodes[p as int].children.contains(i as usize)) by {
        assert(v.nodes[i].owner == w.nodes[i].owner);
        match v.nodes[i].owner {
            Some(p) => {
                assert(w.nodes[p as int].children == v.nodes[p as int].children);
            },
            None => {},
        }
    }
    assert forall|i: int, k: int|
        0 <= i < w.nodes.len() && 0 <= k < w.nodes[i].children.len() implies (#[trigger] w.nodes[i].children[k]
        as int) < w.nodes.len() by {
        assert(w.nodes[i].children == v.nodes[i].children);
    }
}

/// `v` with every node of `freed` left with no owner and no children.
pub open spec fn freed_view(v: TreeView, freed: Seq<usize>) -> TreeView {
    TreeView {
        nodes: Seq::new(
            v.nodes.len(),
            |j: int| if freed.contains(j as usize) {
                NodeView { owner: None, children: Seq::empty(), ..v.nodes[j] }
            } else {
                v.nodes[j]
            },
        ),
        configs: v.configs,
    }
}

/// The total number of children entries of all nodes.
#[verifier::opaque]
pub open spec fn total_children(nodes: Seq<NodeView>) -> nat
    decreases nodes.len(),
{
    if nodes.len() == 0 {
        0
    } else {
        total_children(nodes.drop_last()) + nodes.last().children.len()
    }
}

proof fn lemma_total_children_update(nodes: Seq<NodeView>, i: int, nv: NodeView)
    requires
        0 <= i < nodes.len(),
    ensures
        total_children(nodes.update(i, nv)) + nodes[i].children.len() == total_children(nodes) + nv.children.len(),
    decreases nodes.len(),
{
    reveal(total_children);
    let u = nodes.update(i, nv);
    if i == nodes.len() - 1 {
        assert(u.drop_last() =~= nodes.drop_last());
    } else {
        assert(u.drop_last() =~= nodes.drop_last().update(i, nv));
        lemma_total_children_update(nodes.drop_last(), i, nv);
    }
}

impl NodeTree {
    /// The invariant: the view is well formed and the ranks witness it.
    pub closed spec fn wf(&self) -> bool {
        &&& structure_ok(self@)
        &&& rank_valid(self@, self.rank@)
    }

    /// The ranks that witness that the owner relation has no cycle.
    pub closed spec fn ranks(&self) -> Seq<nat> {
        self.rank@
    }

    /// A well-formed tree has a well-formed view.
    pub proof fn lemma_wf_view(&self)
        requires
            self.wf(),
        ensures
            well_formed(self@),
    {
    }

    proof fn lemma_view_facts(&self)
        ensures
            self@.nodes.len() == self.nodes@.len(),
            forall|i: int| 0 <= i < self.nodes@.len() ==> #[trigger] self@.nodes[i] == self.nodes@[i].view(),
            self@.configs == self.configs@,
    {
    }

    proof fn lemma_chain_is_ranked(&self, n: usize)
        requires
            self.wf(),
        ensures
            chain(self@, n) == chain_of(self@, self.rank@, n),
    {
        let r = choose|r: Seq<nat>| rank_valid(self@, r);
        lemma_chain_of_rank_independent(self@, r, self.rank@, n);
    }

    /// A tree with no nodes and only the default configuration.
    pub fn new() -> (t: NodeTree)
        ensures
            t.wf(),
            t@.nodes == Seq::<NodeView>::empty(),
            t@.configs == seq![default_config()],
    {
        let mut configs: Vec<Config> = Vec::new();
        configs.push(
            Config { use_web_defaults: false, point_scale_factor: ONE_BITS, errata: 0, experimental_web_flex_basis: false },
        );
        let t = NodeTree { nodes: Vec::new(), configs, rank: Ghost(Seq::empty()) };
        assert(t@.nodes =~= Seq::<NodeView>::empty());
        t
    }

    /// The number of node ids handed out.
    pub fn node_count(&self) -> (r: usize)
        ensures
            r == self@.nodes.len(),
    {
        self.nodes.len()
    }

    /// The number of configuration ids handed out.
    pub fn config_count(&self) -> (r: usize)
        ensures
            r == self@.configs.len(),
    {
        self.configs.len()
    }

    /// Adds a node with configuration `config` (Yoga's `YGNodeNewWithConfig`).
    pub fn new_node(&mut self, config: usize) -> (id: usize)
        requires
            old(self).wf(),
            (config as int) < old(self)@.configs.len(),
            old(self)@.nodes.len() < usize::MAX,
        ensures
            final(self).wf(),
            id == old(self)@.nodes.len(),
            final(self)@ == (TreeView {
                nodes: old(self)@.nodes.push(fresh_node(config, old(self)@.configs[config as int].use_web_defaults)),
                configs: old(self)@.configs,
            }),
    {
        let web = self.configs[config].use_web_defaults;
        let data = NodeData {
            style: default_style(web),
            display_mode: YG_DISPLAY_FLEX,
            position_type_mode: YG_POSITION_TYPE_RELATIVE,
            config,
            has_new_layout: true,
            is_dirty: true,
            has_dirtied_func: false,
            has_measure_func: false,
            has_baseline_func: false,
            is_reference_baseline: false,
            node_type: YG_NODE_TYPE_DEFAULT,
            always_forms_containing_block: false,
            direction: YG_DIRECTION_INHERIT,
            flex: None,
            has_flex_grow: false,
            has_flex_shrink: false,
            position_edges: EdgeValues::new(),
            margin_edges: EdgeValues::new(),
            padding_edges: EdgeValues::new(),
            border_edges: EdgeValues::new(),
            layout_direction: YG_DIRECTION_LTR,
            had_overflow: false,
        };
        let id = self.nodes.len();
        let node = Node { data, owner: None, children: Vec::new(), grid: GridTemplates::new() };
        self.nodes.push(node);
        self.rank = Ghost(self.rank@.push(0));
        proof {
            let expected = old(self)@.nodes.push(fresh_node(config, old(self)@.configs[config as int].use_web_defaults));
            self.lemma_view_facts();
            old(self).lemma_view_facts();
            assert(self@.nodes =~= expected);
            let v = self@;
            let o = old(self)@;
            assert forall|i: int| 0 <= i < v.nodes.len() implies (#[trigger] v.nodes[i].owner matches Some(p) ==> (p as int)
                < v.nodes.len() && v.nodes[p as int].children.contains(i as usize)) by {
                if i < o.nodes.len() {
                    assert(v.nodes[i] == o.nodes[i]);
                    match o.nodes[i].owner {
                        Some(p) => {
                            assert(v.nodes[p as int] == o.nodes[p as int]);
                        },
                        None => {},
                    }
                }
            }
            assert forall|i: int, k: int|
                0 <= i < v.nodes.len() && 0 <= k < v.nodes[i].children.len() implies (#[trigger] v.nodes[i].children[k]
                as int) < v.nodes.len() by {
                if i < o.nodes.len() {
                    assert(v.nodes[i] == o.nodes[i]);
                }
            }
            assert forall|i: int| 0 <= i < v.nodes.len() implies (#[trigger] v.nodes[i].data.config as int) < v.configs.len() by {
                if i < o.nodes.len() {
                    assert(v.nodes[i] == o.nodes[i]);
                }
            }
            assert forall|i: int| 0 <= i < v.nodes.len() implies (#[trigger] v.nodes[i].owner matches Some(p) ==> (p as int)
                < v.nodes.len() && self.rank@[p as int] < self.rank@[i]) by {
                if i < o.nodes.len() {
                    assert(v.nodes[i] == o.nodes[i]);
                    assert(self.rank@[i] == old(self).rank@[i]);
                    match o.nodes[i].owner {
                        Some(p) => {
                            assert(self.rank@[p as int] == old(self).rank@[p as int]);
                        },
                        None => {},
                    }
                }
            }
        }
        id
    }

    /// Marks `node` and every node up its owner chain dirty (Yoga's
    /// `mark_dirty`), and returns, in chain order, the nodes that were clean
    /// and have a dirtied callback: the callbacks to call.
    #[verifier::rlimit(50)]
    pub fn mark_dirty(&mut self, node: usize) -> (dirtied: Vec<usize>)
        requires
            old(self).wf(),
            (node as int) < old(self)@.nodes.len(),
        ensures
            final(self).wf(),
            final(self).ranks() == old(self).ranks(),
            final(self)@ == marked(old(self)@, chain(old(self)@, node)),
            dirtied@ == newly_dirtied(old(self)@, chain(old(self)@, node)),
    {
        let ghost v0 = self@;
        let ghost r = self.rank@;
        let ghost full = chain(v0, node);
        proof {
            self.lemma_chain_is_ranked(node);
            lemma_chain_of_ranks(v0, r, node);
            lemma_marked_empty(v0);
            assert(full.take(0) =~= Seq::<usize>::empty());
        }
        let mut dirtied: Vec<usize> = Vec::new();
        let mut cursor: Option<usize> = Some(node);
        let ghost mut k: int = 0;
        while cursor.is_some()
            invariant
                self.rank@ == r,
                v0 == old(self)@,
                r == old(self).rank@,
                structure_ok(v0),
                full == chain_of(v0, r, node),
                rank_valid(v0, r),
                0 <= k <= full.len(),
                self@ == marked(v0, full.take(k)),
                dirtied@ == newly_dirtied(v0, full.take(k)),
                forall|i: int, j: int| 0 <= i < j < full.len() ==> r[full[i] as int] > r[full[j] as int],
                match cursor {
                    Some(c) => k < full.len() && full.skip(k) == chain_of(v0, r, c) && (c as int) < v0.nodes.len(),
                    None => k == full.len(),
                },
            decreases
                match cursor {
                    Some(c) => r[c as int] + 1,
                    None => 0,
                },
        {
            let c = cursor.unwrap();
            proof {
                self.step_facts(v0, r, full, k, c);
            }
            let was_dirty = self.nodes[c].data.is_dirty;
            if !was_dirty {
                self.nodes[c].data.is_dirty = true;
                if self.nodes[c].data.has_dirtied_func {
                    dirtied.push(c);
                }
            }
            let next = self.nodes[c].owner;
            proof {
                lemma_marked_push(v0, full.take(k), c);
                self.lemma_view_facts();
                assert(full.take(k + 1) =~= full.take(k).push(c));
                assert(self@ =~= marked(v0, full.take(k + 1)));
                assert(dirtied@ =~= newly_dirtied(v0, full.take(k + 1)));
                self.next_facts(v0, r, full, k, c);
                k = k + 1;
            }
            cursor = next;
        }
        proof {
            assert(full.take(k) =~= full);
            lemma_marked_keeps_structure(v0, full, r);
        }
        dirtied
    }

    proof fn step_facts(&self, v0: TreeView, r: Seq<nat>, full: Seq<usize>, k: int, c: usize)
        requires
            rank_valid(v0, r),
            0 <= k < full.len(),
            full.skip(k) == chain_of(v0, r, c),
            (c as int) < v0.nodes.len(),
            forall|i: int, j: int| 0 <= i < j < full.len() ==> r[full[i] as int] > r[full[j] as int],
            self@ == marked(v0, full.take(k)),
        ensures
            full[k] == c,
            !full.take(k).contains(c),
            self@.nodes[c as int] == v0.nodes[c as int],
            (c as int) < self.nodes@.len(),
            self.nodes@[c as int].data == v0.nodes[c as int].data,
            self.nodes@[c as int].owner == v0.nodes[c as int].owner,
    {
        lemma_chain_of_ranks(v0, r, c);
        self.lemma_view_facts();
        assert(full.skip(k)[0] == full[k]);
        if full.take(k).contains(c) {
            let i = choose|i: int| 0 <= i < k && full.take(k)[i] == c;
            assert(full[i] == c);
            assert(r[full[i] as int] > r[full[k] as int]);
        }
        assert(self@.nodes[c as int] == marked(v0, full.take(k)).nodes[c as int]);
        assert(self@.nodes[c as int] == self.nodes@[c as int].view());
    }

    proof fn next_facts(&self, v0: TreeView, r: Seq<nat>, full: Seq<usize>, k: int, c: usize)
        requires
            rank_valid(v0, r),
            0 <= k < full.len(),
            full.skip(k) == chain_of(v0, r, c),
            (c as int) < v0.nodes.len(),
        ensures
            match v0.nodes[c as int].owner {
                Some(p) => k + 1 < full.len() && full.skip(k + 1) == chain_of(v0, r, p) && (p as int)
                    < v0.nodes.len(),
                None => k + 1 == full.len(),
            },
    {
        assert(v0.nodes[c as int].owner == v0.nodes[c as int].owner);
        match v0.nodes[c as int].owner {
            Some(p) => {
                lemma_chain_of_ranks(v0, r, p);
                assert(full.skip(k + 1) =~= full.skip(k).skip(1));
                assert(full.skip(k).skip(1) =~= chain_of(v0, r, p));
            },
            None => {
                assert(full.skip(k).len() == 1);
            },
        }
    }

    fn set_owner_raw(&mut self, x: usize, o: Option<usize>)
        requires
            (x as int) < old(self)@.nodes.len(),
        ensures
            final(self)@ == with_owner(old(self)@, x, o),
            final(self).rank@ == old(self).rank@,
    {
        proof {
            self.lemma_view_facts();
        }
        self.nodes[x].owner = o;
        proof {
            self.lemma_view_facts();
            assert(self@ =~= with_owner(old(self)@, x, o)) by {
                assert(self@.nodes =~= with_owner(old(self)@, x, o).nodes);
            }
        }
    }

    /// The position of the first occurrence of `child` among `node`'s children.
    fn child_position(&self, node: usize, child: usize) -> (r: Option<usize>)
        requires
            (node as int) < self@.nodes.len(),
        ensures
            match r {
                Some(i) => self@.nodes[node as int].children.contains(child) && i as int == first_index(
                    self@.nodes[node as int].children,
                    child,
                ),
                None => !self@.nodes[node as int].children.contains(child),
            },
    {
        proof {
            self.lemma_view_facts();
            lemma_first_index(self@.nodes[node as int].children, child);
        }
        let ghost cs = self@.nodes[node as int].children;
        let n = self.nodes[node].children.len();
        let mut i: usize = 0;
        while i < n
            invariant
                n == cs.len(),
                cs == self.nodes@[node as int].children@,
                (node as int) < self.nodes@.len(),
                i <= n,
                forall|j: int| 0 <= j < i ==> cs[j] != child,
                0 <= first_index(cs, child) <= cs.len(),
                forall|j: int| 0 <= j < first_index(cs, child) ==> cs[j] != child,
                cs.contains(child) ==> first_index(cs, child) < cs.len() && cs[first_index(cs, child)] == child,
            decreases n - i,
        {
            if self.nodes[node].children[i] == child {
                proof {
                    assert(cs.contains(child));
                    assert(first_index(cs, child) == i as int);
                }
                return Some(i);
            }
            i = i + 1;
        }
        proof {
            if cs.contains(child) {
                let k = choose|k: int| 0 <= k < cs.len() && cs[k] == child;
                assert(cs[k] != child);
            }
        }
        None
    }

    fn remove_child_at_raw(&mut self, node: usize, i: usize)
        requires
            (node as int) < old(self)@.nodes.len(),
            (i as int) < old(self)@.nodes[node as int].children.len(),
        ensures
            final(self)@ == with_children(old(self)@, node, old(self)@.nodes[node as int].children.remove(i as int)),
            final(self).rank@ == old(self).rank@,
    {
        proof {
            self.lemma_view_facts();
        }
        self.nodes[node].children.remove(i);
        proof {
            self.lemma_view_facts();
            let target = with_children(old(self)@, node, old(self)@.nodes[node as int].children.remove(i as int));
            assert(self@ =~= target) by {
                assert(self@.nodes =~= target.nodes);
            }
        }
    }

    /// Removes `child` from `node`'s children (Yoga's `YGNodeRemoveChild`):
    /// when `child` is among them, its first occurrence is removed, `child`
    /// is left without an owner and `node`'s chain is marked dirty; otherwise
    /// nothing changes. Returns the dirtied callbacks to call.
    pub fn remove_child(&mut self, node: usize, child: usize) -> (dirtied: Vec<usize>)
        requires
            old(self).wf(),
            (node as int) < old(self)@.nodes.len(),
            (child as int) < old(self)@.nodes.len(),
        ensures
            final(self).wf(),
            final(self).ranks() == old(self).ranks(),
            old(self)@.nodes[node as int].children.contains(child) ==> {
                let d = detached(old(self)@, node, child);
                &&& final(self)@ == marked(d, chain(d, node))
                &&& dirtied@ == newly_dirtied(d, chain(d, node))
            },
            !old(self)@.nodes[node as int].children.contains(child) ==> final(self)@ == old(self)@ && dirtied@
                == Seq::<usize>::empty(),
    {
        match self.child_position(node, child) {
            Some(idx) => {
                proof {
                    lemma_detach_keeps_structure(self@, self.rank@, node, child);
                    lemma_first_index(self@.nodes[node as int].children, child);
                    self.lemma_view_facts();
                }
                self.remove_child_at_raw(node, idx);
                self.set_owner_raw(child, None);
                self.mark_dirty(node)
            },
            None => Vec::new(),
        }
    }

    fn insert_child_raw(&mut self, node: usize, at: usize, child: usize)
        requires
            (node as int) < old(self)@.nodes.len(),
            (at as int) <= old(self)@.nodes[node as int].children.len(),
        ensures
            final(self)@ == with_children(old(self)@, node, old(self)@.nodes[node as int].children.insert(at as int, child)),
            final(self).rank@ == old(self).rank@,
    {
        proof {
            self.lemma_view_facts();
        }
        self.nodes[node].children.insert(at, child);
        proof {
            self.lemma_view_facts();
            let target = with_children(old(self)@, node, old(self)@.nodes[node as int].children.insert(at as int, child));
            assert(self@ =~= target) by {
                assert(self@.nodes =~= target.nodes);
            }
        }
    }

    /// Whether `target` is on `start`'s owner chain.
    pub fn chain_contains(&self, start: usize, target: usize) -> (r: bool)
        requires
            self.wf(),
            (start as int) < self@.nodes.len(),
        ensures
            r == chain(self@, start).contains(target),
    {
        let ghost v = self@;
        let ghost rk = self.rank@;
        proof {
            self.lemma_chain_is_ranked(start);
            self.lemma_view_facts();
        }
        let mut cursor: usize = start;
        loop
            invariant
                self.wf(),
                v == self@,
                rk == self.rank@,
                (cursor as int) < v.nodes.len(),
                chain(v, start) == chain_of(v, rk, start),
                chain_of(v, rk, start).contains(target) <==> chain_of(v, rk, cursor).contains(target),
            decreases rk[cursor as int],
        {
            proof {
                self.lemma_view_facts();
                lemma_chain_of_ranks(v, rk, cursor);
            }
            if cursor == target {
                proof {
                    assert(chain_of(v, rk, cursor)[0] == cursor);
                }
                return true;
            }
            match self.nodes[cursor].owner {
                Some(p) => {
                    proof {
                        assert(v.nodes[cursor as int].owner == Some(p));
                        let s = chain_of(v, rk, cursor);
                        assert(s == seq![cursor].add(chain_of(v, rk, p)));
                        assert(s.contains(target) <==> chain_of(v, rk, p).contains(target)) by {
                            if s.contains(target) {
                                let k = choose|k: int| 0 <= k < s.len() && s[k] == target;
                                assert(k > 0);
                                assert(chain_of(v, rk, p)[k - 1] == target);
                            }
                            if chain_of(v, rk, p).contains(target) {
                                let k = choose|k: int| 0 <= k < chain_of(v, rk, p).len() && chain_of(v, rk, p)[k] == target;
                                assert(s[k + 1] == target);
                            }
                        }
                    }
                    cursor = p;
                },
                None => {
                    proof {
                        assert(v.nodes[cursor as int].owner is None);
                        assert(chain_of(v, rk, cursor) == seq![cursor]);
                        assert(!chain_of(v, rk, cursor).contains(target)) by {
                            if chain_of(v, rk, cursor).contains(target) {
                                let k = choose|k: int| 0 <= k < 1 && chain_of(v, rk, cursor)[k] == target;
                            }
                        }
                    }
                    return false;
                },
            }
        }
    }

    /// Inserts `child` among `node`'s children at `index`, or at the end when
    /// `index` is past it (Yoga's `YGNodeInsertChild`). `child` is first
    /// removed from its owner, if it has one; then it is owned by `node` and
    /// `node`'s chain is marked dirty. `child` must not be on `node`'s owner
    /// chain (`node` itself included): that would make the owners a cycle.
    /// Returns the dirtied callbacks to call, in order.
    pub fn insert_child(&mut self, node: usize, child: usize, index: usize) -> (dirtied: Vec<usize>)
        requires
            old(self).wf(),
            (node as int) < old(self)@.nodes.len(),
            (child as int) < old(self)@.nodes.len(),
            !chain(old(self)@, node).contains(child),
        ensures
            final(self).wf(),
            final(self)@ == inserted(old(self)@, node, child, index),
            dirtied@ == inserted_dirtied(old(self)@, node, child, index),
    {
        let ghost v0 = self@;
        proof {
            self.lemma_view_facts();
        }
        proof {
            old(self).lemma_chain_is_ranked(node);
            lemma_release_keeps_structure(v0, old(self).rank@, child, node);
        }
        let mut dirtied = match self.nodes[child].owner {
            Some(prev) => {
                proof {
                    assert(v0.nodes[child as int].owner == Some(prev));
                    assert(v0.nodes[prev as int].children.contains(child));
                }
                self.remove_child(prev, child)
            },
            None => Vec::new(),
        };
        let ghost v1 = self@;
        proof {
            assert(v1 == released(v0, child));
            assert(dirtied@ == released_dirtied(v0, child));
            self.lemma_view_facts();
        }
        let len = self.nodes[node].children.len();
        let at: usize = if index <= len { index } else { len };
        let ghost r1 = self.rank@;
        self.set_owner_raw(child, Some(node));
        self.insert_child_raw(node, at, child);
        proof {
            lemma_attach_keeps_structure(v1, r1, node, child, index);
            assert(self@ =~= attached(v1, node, child, index));
        }
        self.rank = Ghost(attach_ranks(v1, r1, node, child));
        let mut more = self.mark_dirty(node);
        dirtied.append(&mut more);
        dirtied
    }

    fn set_child_raw(&mut self, node: usize, index: usize, child: usize)
        requires
            (node as int) < old(self)@.nodes.len(),
            (index as int) < old(self)@.nodes[node as int].children.len(),
        ensures
            final(self)@ == with_children(old(self)@, node, old(self)@.nodes[node as int].children.update(index as int, child)),
            final(self).rank@ == old(self).rank@,
    {
        proof {
            self.lemma_view_facts();
        }
        self.nodes[node].children.set(index, child);
        proof {
            self.lemma_view_facts();
            let target = with_children(old(self)@, node, old(self)@.nodes[node as int].children.update(index as int, child));
            assert(self@ =~= target) by {
                assert(self@.nodes =~= target.nodes);
            }
        }
    }

    /// Whether `target` is on `start`'s owner chain once every node of `cut`
    /// has lost its owner.
    pub fn chain_contains_cut(&self, start: usize, target: usize, cut: &Vec<usize>) -> (r: bool)
        requires
            self.wf(),
            (start as int) < self@.nodes.len(),
        ensures
            r == chain(cut_all(self@, cut@), start).contains(target),
    {
        let ghost v = self@;
        let ghost w = cut_all(v, cut@);
        let ghost rk = self.rank@;
        proof {
            self.lemma_view_facts();
            lemma_cut_shortens_chain(v, w, rk, start);
            let rc = choose|r: Seq<nat>| rank_valid(w, r);
            lemma_chain_of_rank_independent(w, rc, rk, start);
        }
        let mut cursor: usize = start;
        loop
            invariant
                self.wf(),
                v == self@,
                w == cut_all(v, cut@),
                rk == self.rank@,
                rank_valid(w, rk),
                (cursor as int) < v.nodes.len(),
                chain(w, start) == chain_of(w, rk, start),
                chain_of(w, rk, start).contains(target) <==> chain_of(w, rk, cursor).contains(target),
            decreases rk[cursor as int],
        {
            proof {
                self.lemma_view_facts();
                lemma_chain_of_ranks(w, rk, cursor);
            }
            if cursor == target {
                proof {
                    assert(chain_of(w, rk, cursor)[0] == cursor);
                }
                return true;
            }
            let mut is_cut = false;
            let mut i: usize = 0;
            while i < cut.len()
                invariant
                    i <= cut.len(),
                    is_cut == cut@.subrange(0, i as int).contains(cursor),
                decreases cut.len() - i,
            {
                if cut[i] == cursor {
                    is_cut = true;
                }
                proof {
                    let a = cut@.subrange(0, i as int);
                    let b = cut@.subrange(0, i as int + 1);
                    assert(b == a.push(cut@[i as int]));
                    if cut@[i as int] == cursor {
                        assert(b[i as int] == cursor);
                    }
                    assert(b.contains(cursor) == (a.contains(cursor) || cut@[i as int] == cursor)) by {
                        if b.contains(cursor) {
                            let k = choose|k: int| 0 <= k < b.len() && b[k] == cursor;
                            if k < a.len() {
                                assert(a[k] == cursor);
                            }
                        }
                        if a.contains(cursor) {
                            let k = choose|k: int| 0 <= k < a.len() && a[k] == cursor;
                            assert(b[k] == cursor);
                        }
                    }
                }
                i = i + 1;
            }
            proof {
                assert(cut@.subrange(0, cut.len() as int) == cut@);
            }
            let owner = if is_cut { None } else { self.nodes[cursor].owner };
            proof {
                assert(w.nodes[cursor as int].owner == owner);
            }
            match owner {
                Some(p) => {
                    proof {
                        let s = chain_of(w, rk, cursor);
                        assert(s == seq![cursor].add(chain_of(w, rk, p)));
                        assert(s.contains(target) <==> chain_of(w, rk, p).contains(target)) by {
                            if s.contains(target) {
                                let k = choose|k: int| 0 <= k < s.len() && s[k] == target;
                                assert(k > 0);
                                assert(chain_of(w, rk, p)[k - 1] == target);
                            }
                            if chain_of(w, rk, p).contains(target) {
                                let k = choose|k: int| 0 <= k < chain_of(w, rk, p).len() && chain_of(w, rk, p)[k] == target;
                                assert(s[k + 1] == target);
                            }
                        }
                    }
                    cursor = p;
                },
                None => {
                    proof {
                        assert(chain_of(w, rk, cursor) == seq![cursor]);
                        assert(!chain_of(w, rk, cursor).contains(target)) by {
                            if chain_of(w, rk, cursor).contains(target) {
                                let k = choose|k: int| 0 <= k < 1 && chain_of(w, rk, cursor)[k] == target;
                            }
                        }
                    }
                    return false;
                },
            }
        }
    }

    /// Puts `child` in place of `node`'s child at `index` (Yoga's
    /// `YGNodeSwapChild`): the child that was there loses its owner, `child`
    /// is owned by `node`, and `node`'s chain is marked dirty. An index past
    /// the children changes nothing. `child` must not be on `node`'s chain
    /// once the replaced child has lost its owner: that would make the owners
    /// a cycle. Returns the dirtied callbacks to call.
    pub fn swap_child(&mut self, node: usize, child: usize, index: usize) -> (dirtied: Vec<usize>)
        requires
            old(self).wf(),
            (node as int) < old(self)@.nodes.len(),
            (child as int) < old(self)@.nodes.len(),
            (index as int) < old(self)@.nodes[node as int].children.len() ==> !chain(
                cut_all(old(self)@, seq![old(self)@.nodes[node as int].children[index as int]]),
                node,
            ).contains(child),
        ensures
            final(self).wf(),
            (index as int) < old(self)@.nodes[node as int].children.len() ==> {
                let s = swapped(old(self)@, node, child, index);
                &&& final(self)@ == marked(s, chain(s, node))
                &&& dirtied@ == newly_dirtied(s, chain(s, node))
            },
            (index as int) >= old(self)@.nodes[node as int].children.len() ==> final(self)@ == old(self)@ && dirtied@
                == Seq::<usize>::empty(),
    {
        proof {
            self.lemma_view_facts();
        }
        if index >= self.nodes[node].children.len() {
            return Vec::new();
        }
        let ghost v0 = self@;
        let ghost r0 = self.rank@;
        let old_child = self.nodes[node].children[index];
        proof {
            assert(old_child == v0.nodes[node as int].children[index as int]);
            let w = cut_all(v0, seq![old_child]);
            assert(w == with_owner(v0, old_child, None)) by {
                assert forall|j: int| 0 <= j < v0.nodes.len() implies w.nodes[j] == with_owner(v0, old_child, None).nodes[j] by {
                    if j == old_child as int {
                        assert(seq![old_child].contains(old_child)) by {
                            assert(seq![old_child][0] == old_child);
                        }
                    } else {
                        assert(!seq![old_child].contains(j as usize));
                    }
                }
                assert(w =~= with_owner(v0, old_child, None));
            }
            lemma_cut_keeps_structure(v0, r0, old_child);
            let rw = choose|r: Seq<nat>| rank_valid(w, r);
            lemma_chain_of_rank_independent(w, rw, r0, node);
        }
        self.set_owner_raw(old_child, None);
        let ghost v1 = self@;
        self.set_owner_raw(child, Some(node));
        self.set_child_raw(node, index, child);
        proof {
            let s = swapped(v0, node, child, index);
            assert(self@ =~= s);
            lemma_swap_keeps_structure(v0, r0, node, child, index);
        }
        self.rank = Ghost(attach_ranks(v1, r0, node, child));
        self.mark_dirty(node)
    }

    /// Takes every child away from `node` (Yoga's `YGNodeRemoveAllChildren`):
    /// they all lose their owner, `node` is left with no children, and its
    /// chain is marked dirty. Returns the dirtied callbacks to call.
    pub fn remove_all_children(&mut self, node: usize) -> (dirtied: Vec<usize>)
        requires
            old(self).wf(),
            (node as int) < old(self)@.nodes.len(),
        ensures
            final(self).wf(),
            final(self).ranks() == old(self).ranks(),
            final(self)@ == marked(orphaned(old(self)@, node), chain(orphaned(old(self)@, node), node)),
            dirtied@ == newly_dirtied(orphaned(old(self)@, node), chain(orphaned(old(self)@, node), node)),
    {
        self.orphan_children(node);
        self.mark_dirty(node)
    }

    fn orphan_children(&mut self, node: usize)
        requires
            old(self).wf(),
            (node as int) < old(self)@.nodes.len(),
        ensures
            final(self).wf(),
            final(self).rank@ == old(self).rank@,
            final(self)@ == orphaned(old(self)@, node),
    {
        let ghost v0 = self@;
        let ghost cs = v0.nodes[node as int].children;
        proof {
            self.lemma_view_facts();
            lemma_orphan_keeps_structure(v0, self.rank@, node);
        }
        let n = self.nodes[node].children.len();
        let mut i: usize = 0;
        while i < n
            invariant
                (node as int) < v0.nodes.len(),
                cs == v0.nodes[node as int].children,
                n == cs.len(),
                i <= n,
                self.rank@ == old(self).rank@,
                v0 == old(self)@,
                structure_ok(v0),
                self@ == cut_all(v0, cs.subrange(0, i as int)),
            decreases n - i,
        {
            proof {
                self.lemma_view_facts();
                assert(self@.nodes[node as int].children == cs);
            }
            let c = self.nodes[node].children[i];
            proof {
                assert(c == cs[i as int]);
                assert((c as int) < v0.nodes.len());
            }
            self.set_owner_raw(c, None);
            proof {
                let a = cs.subrange(0, i as int);
                let b = cs.subrange(0, i as int + 1);
                assert(b == a.push(c));
                let target = cut_all(v0, b);
                assert forall|j: int| 0 <= j < v0.nodes.len() implies self@.nodes[j] == target.nodes[j] by {
                    assert(b.contains(j as usize) == (a.contains(j as usize) || j == c as int)) by {
                        if b.contains(j as usize) {
                            let k = choose|k: int| 0 <= k < b.len() && b[k] == j as usize;
                            if k < a.len() {
                                assert(a[k] == j as usize);
                            }
                        }
                        if a.contains(j as usize) {
                            let k = choose|k: int| 0 <= k < a.len() && a[k] == j as usize;
                            assert(b[k] == j as usize);
                        }
                        if j == c as int {
                            assert(b[i as int] == c);
                        }
                    }
                }
                assert(self@ =~= target);
            }
            i = i + 1;
        }
        proof {
            assert(cs.subrange(0, n as int) == cs);
            self.lemma_view_facts();
        }
        self.set_children_empty_raw(node);
        proof {
            assert(self@ =~= orphaned(v0, node));
        }
    }

    fn set_children_empty_raw(&mut self, node: usize)
        requires
            (node as int) < old(self)@.nodes.len(),
        ensures
            final(self)@ == with_children(old(self)@, node, Seq::empty()),
            final(self).rank@ == old(self).rank@,
    {
        proof {
            self.lemma_view_facts();
        }
        self.nodes[node].children.clear();
        proof {
            self.lemma_view_facts();
            let target = with_children(old(self)@, node, Seq::empty());
            assert(self@ =~= target) by {
                assert(self@.nodes =~= target.nodes);
            }
        }
    }

    /// Replaces all of `owner`'s children by `children`, in order (Yoga's
    /// `YGNodeSetChildren`): every current child is taken away, then each of
    /// `children` is inserted at its position. None of `children` may be on
    /// `owner`'s chain once the current children have lost their owners.
    /// Returns the dirtied callbacks to call, in order.
    #[verifier::spinoff_prover]
    #[verifier::rlimit(60)]
    pub fn set_children(&mut self, owner: usize, children: &Vec<usize>) -> (dirtied: Vec<usize>)
        requires
            old(self).wf(),
            (owner as int) < old(self)@.nodes.len(),
            forall|i: int| 0 <= i < children@.len() ==> (#[trigger] children@[i] as int) < old(self)@.nodes.len(),
            forall|i: int|
                0 <= i < children@.len() ==> !chain(
                    cut_all(old(self)@, old(self)@.nodes[owner as int].children),
                    owner,
                ).contains(#[trigger] children@[i]),
        ensures
            final(self).wf(),
            ({
                let o = orphaned(old(self)@, owner);
                let base = marked(o, chain(o, owner));
                &&& final(self)@ == inserted_all(base, owner, children@)
                &&& dirtied@ == newly_dirtied(o, chain(o, owner)) + inserted_all_dirtied(base, owner, children@)
            }),
    {
        let ghost v0 = self@;
        let ghost o = orphaned(v0, owner);
        proof {
            self.lemma_view_facts();
            lemma_orphan_keeps_structure(v0, self.rank@, owner);
            let c = cut_all(v0, v0.nodes[owner as int].children);
            lemma_same_owners(c, o, self.rank@, owner);
            assert forall|i: int| 0 <= i < c.nodes.len() implies #[trigger] c.nodes[i].owner == o.nodes[i].owner by {}
            lemma_same_owners(c, o, self.rank@, owner);
            let rc = choose|q: Seq<nat>| rank_valid(c, q);
            lemma_chain_of_rank_independent(c, rc, self.rank@, owner);
            let ro = choose|q: Seq<nat>| rank_valid(o, q);
            lemma_chain_of_rank_independent(o, ro, self.rank@, owner);
        }
        let mut dirtied = self.remove_all_children(owner);
        let ghost base = self@;
        let ghost d0 = dirtied@;
        proof {
            lemma_marked_keeps_structure(o, chain(o, owner), self.rank@);
            self.lemma_chain_is_ranked(owner);
            let ro = choose|q: Seq<nat>| rank_valid(o, q);
            lemma_chain_of_rank_independent(o, ro, self.rank@, owner);
            assert(chain(base, owner) == chain(o, owner));
            assert(children@.take(0) =~= Seq::<usize>::empty());
        }
        let n = children.len();
        let mut i: usize = 0;
        while i < n
            invariant
                n == children@.len(),
                i <= n,
                self.wf(),
                (owner as int) < self@.nodes.len(),
                self@.nodes.len() == v0.nodes.len(),
                forall|k: int| 0 <= k < children@.len() ==> (#[trigger] children@[k] as int) < v0.nodes.len(),
                forall|k: int| 0 <= k < children@.len() ==> !chain(o, owner).contains(#[trigger] children@[k]),
                chain(self@, owner) == chain(o, owner),
                self@ == inserted_all(base, owner, children@.take(i as int)),
                dirtied@ == d0 + inserted_all_dirtied(base, owner, children@.take(i as int)),
            decreases n - i,
        {
            let c = children[i];
            let ghost before = self@;
            proof {
                assert(c == children@[i as int]);
                self.lemma_chain_is_ranked(owner);
                lemma_insert_keeps_chain(before, self.ranks(), owner, c, i);
            }
            let mut more = self.insert_child(owner, c, i);
            dirtied.append(&mut more);
            proof {
                let s = children@.take(i as int + 1);
                assert(s.drop_last() =~= children@.take(i as int));
                assert(s.last() == c);
                assert(self@ == inserted_all(base, owner, s));
                assert(dirtied@ =~= d0 + inserted_all_dirtied(base, owner, s));
            }
            i = i + 1;
        }
        proof {
            assert(children@.take(n as int) =~= children@);
        }
        dirtied
    }

    /// Frees a node (Yoga's `YGNodeFree`): it is removed from its owner, if
    /// it has one, and its children lose their owner. Returns the dirtied
    /// callbacks that the removal calls.
    pub fn free(&mut self, node: usize) -> (dirtied: Vec<usize>)
        requires
            old(self).wf(),
            (node as int) < old(self)@.nodes.len(),
        ensures
            final(self).wf(),
            final(self)@ == orphaned(released(old(self)@, node), node),
            dirtied@ == released_dirtied(old(self)@, node),
    {
        proof {
            self.lemma_view_facts();
        }
        let dirtied = match self.nodes[node].owner {
            Some(prev) => {
                proof {
                    assert(self@.nodes[node as int].owner == Some(prev));
                    assert(self@.nodes[prev as int].children.contains(node));
                }
                self.remove_child(prev, node)
            },
            None => Vec::new(),
        };
        self.orphan_children(node);
        dirtied
    }

    /// Adds a shallow copy of `node` (Yoga's `YGNodeClone`) and returns its id.
    pub fn clone_node(&mut self, node: usize) -> (id: usize)
        requires
            old(self).wf(),
            (node as int) < old(self)@.nodes.len(),
            old(self)@.nodes.len() < usize::MAX,
        ensures
            final(self).wf(),
            id == old(self)@.nodes.len(),
            final(self)@ == (TreeView {
                nodes: old(self)@.nodes.push(cloned_node(old(self)@.nodes[node as int])),
                configs: old(self)@.configs,
            }),
    {
        proof {
            self.lemma_view_facts();
        }
        let mut data = self.nodes[node].data;
        data.has_new_layout = true;
        data.is_dirty = true;
        data.layout_direction = YG_DIRECTION_LTR;
        data.had_overflow = false;
        let children = copy_vec(&self.nodes[node].children);
        let grid = GridTemplates {
            rows: copy_vec(&self.nodes[node].grid.rows),
            columns: copy_vec(&self.nodes[node].grid.columns),
            auto_rows: copy_vec(&self.nodes[node].grid.auto_rows),
            auto_columns: copy_vec(&self.nodes[node].grid.auto_columns),
        };
        let id = self.nodes.len();
        self.nodes.push(Node { data, owner: None, children, grid });
        self.rank = Ghost(self.rank@.push(0));
        proof {
            let o = old(self)@;
            self.lemma_view_facts();
            old(self).lemma_view_facts();
            let expected = o.nodes.push(cloned_node(o.nodes[node as int]));
            assert(self@.nodes[id as int] =~= cloned_node(o.nodes[node as int]));
            assert(self@.nodes =~= expected);
            let v = self@;
            assert forall|i: int| 0 <= i < v.nodes.len() implies (#[trigger] v.nodes[i].owner matches Some(p) ==> (p
                as int) < v.nodes.len() && v.nodes[p as int].children.contains(i as usize)) by {
                if i < o.nodes.len() {
                    assert(v.nodes[i] == o.nodes[i]);
                    match o.nodes[i].owner {
                        Some(p) => {
                            assert(v.nodes[p as int] == o.nodes[p as int]);
                        },
                        None => {},
                    }
                }
            }
            assert forall|i: int, k: int|
                0 <= i < v.nodes.len() && 0 <= k < v.nodes[i].children.len() implies (#[trigger] v.nodes[i].children[k]
                as int) < v.nodes.len() by {
                if i < o.nodes.len() {
                    assert(v.nodes[i] == o.nodes[i]);
                } else {
                    assert(v.nodes[i].children == o.nodes[node as int].children);
                }
            }
            assert forall|i: int| 0 <= i < v.nodes.len() implies (#[trigger] v.nodes[i].data.config as int) < v.configs.len() by {
                if i < o.nodes.len() {
                    assert(v.nodes[i] == o.nodes[i]);
                }
            }
            assert forall|i: int| 0 <= i < v.nodes.len() implies (#[trigger] v.nodes[i].owner matches Some(p) ==> (p
                as int) < v.nodes.len() && self.rank@[p as int] < self.rank@[i]) by {
                if i < o.nodes.len() {
                    assert(v.nodes[i] == o.nodes[i]);
                    assert(self.rank@[i] == old(self).rank@[i]);
                    match o.nodes[i].owner {
                        Some(p) => {
                            assert(self.rank@[p as int] == old(self).rank@[p as int]);
                        },
                        None => {},
                    }
                }
            }
        }
        id
    }

    /// Resets `node` to a new node's data and empty track lists, keeping its
    /// configuration (Yoga's `YGNodeReset`); a node that has children or an
    /// owner is left as it is.
    pub fn reset(&mut self, node: usize)
        requires
            old(self).wf(),
            (node as int) < old(self)@.nodes.len(),
        ensures
            final(self).wf(),
            (old(self)@.nodes[node as int].children.len() == 0 && old(self)@.nodes[node as int].owner is None)
                ==> final(self)@ == reset_node(old(self)@, node),
            !(old(self)@.nodes[node as int].children.len() == 0 && old(self)@.nodes[node as int].owner is None)
                ==> final(self)@ == old(self)@,
    {
        proof {
            self.lemma_view_facts();
        }
        if self.nodes[node].children.len() != 0 || self.nodes[node].owner.is_some() {
            return;
        }
        let config = self.nodes[node].data.config;
        proof {
            assert(self@.nodes[node as int].data.config == config);
            assert((config as int) < self@.configs.len());
        }
        let web = self.configs[config].use_web_defaults;
        let data = NodeData {
            style: default_style(web),
            display_mode: YG_DISPLAY_FLEX,
            position_type_mode: YG_POSITION_TYPE_RELATIVE,
            config,
            has_new_layout: true,
            is_dirty: true,
            has_dirtied_func: false,
            has_measure_func: false,
            has_baseline_func: false,
            is_reference_baseline: false,
            node_type: YG_NODE_TYPE_DEFAULT,
            always_forms_containing_block: false,
            direction: YG_DIRECTION_INHERIT,
            flex: None,
            has_flex_grow: false,
            has_flex_shrink: false,
            position_edges: EdgeValues::new(),
            margin_edges: EdgeValues::new(),
            padding_edges: EdgeValues::new(),
            border_edges: EdgeValues::new(),
            layout_direction: YG_DIRECTION_LTR,
            had_overflow: false,
        };
        self.nodes[node].data = data;
        self.nodes[node].grid = GridTemplates::new();
        proof {
            let o = old(self)@;
            self.lemma_view_facts();
            old(self).lemma_view_facts();
            let target = reset_node(o, node);
            assert(self@.nodes[node as int] =~= target.nodes[node as int]);
            assert(self@ =~= target);
            assert(structure_ok(self@)) by {
                let v = self@;
                assert forall|i: int| 0 <= i < v.nodes.len() implies (#[trigger] v.nodes[i].owner matches Some(p) ==> (p
                    as int) < v.nodes.len() && v.nodes[p as int].children.contains(i as usize)) by {
                    assert(v.nodes[i].owner == o.nodes[i].owner);
                    match o.nodes[i].owner {
                        Some(p) => {
                            assert(v.nodes[p as int].children == o.nodes[p as int].children);
                        },
                        None => {},
                    }
                }
                assert forall|i: int, k: int|
                    0 <= i < v.nodes.len() && 0 <= k < v.nodes[i].children.len() implies (#[trigger] v.nodes[i].children[k]
                    as int) < v.nodes.len() by {
                    assert(v.nodes[i].children == o.nodes[i].children);
                }
                assert forall|i: int| 0 <= i < v.nodes.len() implies (#[trigger] v.nodes[i].data.config as int) < v.configs.len() by {
                    assert(v.nodes[i].data.config == o.nodes[i].data.config);
                }
            }
            assert(rank_valid(self@, self.rank@)) by {
                assert forall|i: int| 0 <= i < self@.nodes.len() implies (#[trigger] self@.nodes[i].owner matches Some(p) ==> (p
                    as int) < self@.nodes.len() && self.rank@[p as int] < self.rank@[i]) by {
                    assert(self@.nodes[i].owner == o.nodes[i].owner);
                }
            }
        }
    }

    /// The child of `node` at `index`, if there is one (Yoga's `YGNodeGetChild`).
    pub fn get_child(&self, node: usize, index: usize) -> (r: Option<usize>)
        requires
            (node as int) < self@.nodes.len(),
        ensures
            r == if (index as int) < self@.nodes[node as int].children.len() {
                Some(self@.nodes[node as int].children[index as int])
            } else {
                None::<usize>
            },
    {
        proof {
            self.lemma_view_facts();
        }
        if index < self.nodes[node].children.len() {
            Some(self.nodes[node].children[index])
        } else {
            None
        }
    }

    /// The number of children of `node` (Yoga's `YGNodeGetChildCount`).
    pub fn child_count(&self, node: usize) -> (r: usize)
        requires
            (node as int) < self@.nodes.len(),
        ensures
            r == self@.nodes[node as int].children.len(),
    {
        proof {
            self.lemma_view_facts();
        }
        self.nodes[node].children.len()
    }

    /// The owner of `node` (Yoga's `YGNodeGetOwner` and `YGNodeGetParent`).
    pub fn owner(&self, node: usize) -> (r: Option<usize>)
        requires
            (node as int) < self@.nodes.len(),
        ensures
            r == self@.nodes[node as int].owner,
    {
        proof {
            self.lemma_view_facts();
        }
        self.nodes[node].owner
    }

    /// The data of `node`.
    pub fn data(&self, node: usize) -> (r: NodeData)
        requires
            (node as int) < self@.nodes.len(),
        ensures
            r == self@.nodes[node as int].data,
    {
        proof {
            self.lemma_view_facts();
        }
        self.nodes[node].data
    }

    /// The owner chain of `node`: `node`, its owner, and so on up.
    pub fn owner_chain(&self, node: usize) -> (r: Vec<usize>)
        requires
            self.wf(),
            (node as int) < self@.nodes.len(),
        ensures
            r@ == chain(self@, node),
    {
        let ghost v = self@;
        let ghost rk = self.rank@;
        proof {
            self.lemma_chain_is_ranked(node);
            self.lemma_view_facts();
            lemma_chain_of_ranks(v, rk, node);
        }
        let mut out: Vec<usize> = Vec::new();
        let mut cursor: usize = node;
        let ghost full = chain_of(v, rk, node);
        loop
            invariant
                self.wf(),
                v == self@,
                rk == self.rank@,
                (cursor as int) < v.nodes.len(),
                chain(v, node) == full,
                full == chain_of(v, rk, node),
                full == out@ + chain_of(v, rk, cursor),
            decreases rk[cursor as int],
        {
            proof {
                self.lemma_view_facts();
            }
            out.push(cursor);
            match self.nodes[cursor].owner {
                Some(p) => {
                    proof {
                        assert(v.nodes[cursor as int].owner == Some(p));
                        assert(chain_of(v, rk, cursor) == seq![cursor].add(chain_of(v, rk, p)));
                        assert(full =~= out@ + chain_of(v, rk, p));
                    }
                    cursor = p;
                },
                None => {
                    proof {
                        assert(chain_of(v, rk, cursor) == seq![cursor]);
                        assert(full =~= out@);
                    }
                    return out;
                },
            }
        }
    }

    /// Replaces `node`'s data without marking anything dirty.
    pub(crate) fn set_data_raw(&mut self, node: usize, nd: NodeData)
        requires
            old(self).wf(),
            (node as int) < old(self)@.nodes.len(),
            (nd.config as int) < old(self)@.configs.len(),
        ensures
            final(self).wf(),
            final(self).ranks() == old(self).ranks(),
            final(self)@ == with_data(old(self)@, node, nd),
    {
        proof {
            self.lemma_view_facts();
            lemma_with_data_keeps_structure(self@, self.rank@, node, nd);
        }
        self.nodes[node].data = nd;
        proof {
            self.lemma_view_facts();
            let target = with_data(old(self)@, node, nd);
            assert(self@ =~= target) by {
                assert(self@.nodes =~= target.nodes);
            }
        }
    }

    /// Replaces `node`'s data and marks its chain dirty; returns the dirtied
    /// callbacks to call.
    pub(crate) fn set_data_and_mark(&mut self, node: usize, nd: NodeData) -> (dirtied: Vec<usize>)
        requires
            old(self).wf(),
            (node as int) < old(self)@.nodes.len(),
            (nd.config as int) < old(self)@.configs.len(),
        ensures
            final(self).wf(),
            restyled_to(old(self)@, final(self)@, dirtied@, node, nd),
    {
        self.set_data_raw(node, nd);
        self.mark_dirty(node)
    }

    /// Replaces `node`'s grid track lists without marking anything dirty.
    pub(crate) fn set_grid_raw(&mut self, node: usize, grid: GridTemplates)
        requires
            old(self).wf(),
            (node as int) < old(self)@.nodes.len(),
        ensures
            final(self).wf(),
            final(self)@ == (TreeView {
                nodes: old(self)@.nodes.update(node as int, NodeView { grid: grid.view(), ..old(self)@.nodes[node as int] }),
                configs: old(self)@.configs,
            }),
    {
        let ghost w = TreeView {
            nodes: self@.nodes.update(node as int, NodeView { grid: grid.view(), ..self@.nodes[node as int] }),
            configs: self@.configs,
        };
        proof {
            self.lemma_view_facts();
            let v = self@;
            assert forall|i: int| 0 <= i < v.nodes.len() implies #[trigger] v.nodes[i].owner == w.nodes[i].owner by {}
            lemma_same_owners(v, w, self.rank@, 0);
            assert forall|i: int| 0 <= i < w.nodes.len() implies (#[trigger] w.nodes[i].owner matches Some(p) ==> (p
                as int) < w.nodes.len() && w.nodes[p as int].children.contains(i as usize)) by {
                assert(v.nodes[i].owner == w.nodes[i].owner);
                match v.nodes[i].owner {
                    Some(p) => {
                        assert(w.nodes[p as int].children == v.nodes[p as int].children);
                    },
                    None => {},
                }
            }
            assert forall|i: int, k: int|
                0 <= i < w.nodes.len() && 0 <= k < w.nodes[i].children.len() implies (#[trigger] w.nodes[i].children[k]
                as int) < w.nodes.len() by {
                assert(w.nodes[i].children == v.nodes[i].children);
            }
            assert forall|i: int| 0 <= i < w.nodes.len() implies (#[trigger] w.nodes[i].data.config as int) < w.configs.len() by {
                assert(w.nodes[i].data == v.nodes[i].data);
            }
        }
        self.nodes[node].grid = grid;
        proof {
            self.lemma_view_facts();
            assert(self@.nodes =~= w.nodes);
            assert(self@ =~= w);
        }
    }

    /// Replaces `node`'s grid track lists and marks its chain dirty.
    pub(crate) fn set_grid_and_mark(&mut self, node: usize, grid: GridTemplates) -> (dirtied: Vec<usize>)
        requires
            old(self).wf(),
            (node as int) < old(self)@.nodes.len(),
        ensures
            final(self).wf(),
            ({
                let w = TreeView {
                    nodes: old(self)@.nodes.update(node as int, NodeView { grid: grid.view(), ..old(self)@.nodes[node as int] }),
                    configs: old(self)@.configs,
                };
                &&& final(self)@ == marked(w, chain(w, node))
                &&& dirtied@ == newly_dirtied(w, chain(w, node))
            }),
    {
        self.set_grid_raw(node, grid);
        self.mark_dirty(node)
    }

    /// The grid track lists of `node`.
    pub fn grid(&self, node: usize) -> (r: &GridTemplates)
        requires
            (node as int) < self@.nodes.len(),
        ensures
            r.view() == self@.nodes[node as int].grid,
    {
        proof {
            self.lemma_view_facts();
        }
        &self.nodes[node].grid
    }

    /// Adds a configuration with Yoga's defaults (Yoga's `YGConfigNew`) and returns its id.
    pub fn new_config(&mut self) -> (id: usize)
        requires
            old(self).wf(),
            old(self)@.configs.len() < usize::MAX,
        ensures
            final(self).wf(),
            id == old(self)@.configs.len(),
            final(self)@ == (TreeView { nodes: old(self)@.nodes, configs: old(self)@.configs.push(default_config()) }),
    {
        proof {
            self.lemma_view_facts();
        }
        let id = self.configs.len();
        self.configs.push(
            Config { use_web_defaults: false, point_scale_factor: ONE_BITS, errata: 0, experimental_web_flex_basis: false },
        );
        proof {
            self.lemma_view_facts();
            old(self).lemma_view_facts();
            assert(self@.nodes =~= old(self)@.nodes);
            let v = self@;
            assert forall|i: int| 0 <= i < v.nodes.len() implies (#[trigger] v.nodes[i].data.config as int) < v.configs.len() by {
                assert(v.nodes[i] == old(self)@.nodes[i]);
            }
        }
        id
    }

    /// The configuration with id `config`.
    pub fn config(&self, config: usize) -> (r: Config)
        requires
            (config as int) < self@.configs.len(),
        ensures
            r == self@.configs[config as int],
    {
        proof {
            self.lemma_view_facts();
        }
        self.configs[config]
    }

    /// Replaces the configuration with id `config`.
    pub fn set_config_record(&mut self, config: usize, c: Config)
        requires
            old(self).wf(),
            (config as int) < old(self)@.configs.len(),
        ensures
            final(self).wf(),
            final(self)@ == (TreeView { nodes: old(self)@.nodes, configs: old(self)@.configs.update(config as int, c) }),
    {
        proof {
            self.lemma_view_facts();
        }
        self.configs.set(config, c);
        proof {
            self.lemma_view_facts();
            old(self).lemma_view_facts();
            assert(self@.nodes =~= old(self)@.nodes);
            let v = self@;
            assert forall|i: int| 0 <= i < v.nodes.len() implies (#[trigger] v.nodes[i].data.config as int) < v.configs.len() by {
                assert(v.nodes[i] == old(self)@.nodes[i]);
            }
        }
    }

    /// Frees `node` and everything its children lists lead to (Yoga's
    /// `YGNodeFreeRecursive`): each node reached is visited once, in the
    /// order of a depth-first walk that takes the last child first, and is
    /// left with no owner and no children. Returns the nodes freed, in that
    /// order. Nothing else changes; in particular `node` stays among its
    /// owner's children, if it has an owner.
    #[verifier::spinoff_prover]
    #[verifier::rlimit(100)]
    pub fn free_recursive(&mut self, node: usize) -> (freed: Vec<usize>)
        requires
            old(self).wf(),
            (node as int) < old(self)@.nodes.len(),
        ensures
            final(self).wf(),
            final(self)@ == freed_view(old(self)@, freed@),
            freed@.len() >= 1,
            freed@[0] == node,
            freed@.no_duplicates(),
            forall|k: int| 0 <= k < freed@.len() ==> (#[trigger] freed@[k] as int) < old(self)@.nodes.len(),
            forall|k: int, c: usize|
                0 <= k < freed@.len() && #[trigger] old(self)@.nodes[freed@[k] as int].children.contains(c)
                    ==> freed@.contains(c),
            forall|k: int| 0 < k < freed@.len() ==> #[trigger] reached_earlier(old(self)@, freed@, k),
    {
        let ghost v0 = self@;
        let ghost r0 = self.rank@;
        let mut stack: Vec<usize> = Vec::new();
        stack.push(node);
        let mut freed: Vec<usize> = Vec::new();
        let ghost mut par_f: Seq<int> = Seq::empty();
        let ghost mut par_s: Seq<int> = seq![0int];
        proof {
            self.lemma_view_facts();
            assert(freed_view(v0, freed@) =~= v0) by {
                assert forall|j: int| 0 <= j < v0.nodes.len() implies freed_view(v0, freed@).nodes[j] == v0.nodes[j] by {
                    assert(!freed@.contains(j as usize));
                }
            }
            assert(stack@ =~= seq![node]);
            lemma_free_walk_start(v0, node);
        }
        while stack.len() > 0
            invariant
                v0 == old(self)@,
                r0 == old(self).rank@,
                self.rank@ == r0,
                structure_ok(v0),
                rank_valid(v0, r0),
                (node as int) < v0.nodes.len(),
                self@ == freed_view(v0, freed@),
                free_walk_ok(v0, node, freed@, stack@, par_f, par_s),
            decreases total_children(self@.nodes) + stack@.len(),
        {
            let ghost s_old = stack@;
            let ghost f_old = freed@;
            let x = stack.pop().unwrap();
            proof {
                assert(s_old == stack@.push(x));
                assert(s_old[s_old.len() - 1] == x);
            }
            if !contains_id(&freed, x) {
                proof {
                    self.lemma_view_facts();
                    lemma_free_walk_bounds(v0, node, f_old, s_old, par_f, par_s);
                    assert((x as int) < v0.nodes.len());
                    assert(self@.nodes[x as int] == v0.nodes[x as int]);
                }
                let ghost cs = v0.nodes[x as int].children;
                let ghost s_mid = stack@;
                let n = self.nodes[x].children.len();
                let mut k: usize = 0;
                while k < n
                    invariant
                        n == cs.len(),
                        k <= n,
                        (x as int) < self.nodes@.len(),
                        self.nodes@[x as int].children@ == cs,
                        stack@ == s_mid + cs.take(k as int),
                    decreases n - k,
                {
                    let c = self.nodes[x].children[k];
                    stack.push(c);
                    proof {
                        assert(cs.take(k as int + 1) =~= cs.take(k as int).push(c));
                        assert(stack@ =~= s_mid + cs.take(k as int + 1));
                    }
                    k = k + 1;
                }
                proof {
                    assert(cs.take(n as int) =~= cs);
                }
                let ghost before = self@;
                self.set_children_empty_raw(x);
                self.set_owner_raw(x, None);
                freed.push(x);
                proof {
                    lemma_freed_push(v0, f_old, x);
                    lemma_free_measure(before, x);
                    let (pf, ps) = lemma_free_step(v0, node, f_old, s_old, stack@, x, par_f, par_s);
                    par_f = pf;
                    par_s = ps;
                }
            } else {
                let ghost ps_old = par_s;
                proof {
                    lemma_free_skip(v0, node, f_old, s_old, stack@, x, par_f, par_s);
                    par_s = par_s.drop_last();
                    lemma_free_walk_bounds(v0, node, f_old, s_old, par_f, ps_old);
                    assert((x as int) < v0.nodes.len());
                    assert(self@.nodes[x as int] == NodeView { owner: None, children: Seq::empty(), ..v0.nodes[x as int] });
                }
            }
        }
        proof {
            assert(stack@ =~= Seq::<usize>::empty());
            lemma_free_walk_done(v0, r0, node, freed@, par_f, par_s);
        }
        freed
    }
}

/// Whether the `k`-th node of `f` is a child of a node that comes before it in `f`.
pub open spec fn reached_earlier(v: TreeView, f: Seq<usize>, k: int) -> bool {
    exists|j: int| 0 <= j < k && #[trigger] v.nodes[f[j] as int].children.contains(f[k])
}

/// The state of the walk that frees a subtree: `f` the nodes freed so far,
/// distinct, starting with `node`; `s` the stack of nodes still to visit;
/// every child of a freed node freed or on the stack; and the witnesses
/// `pf` and `ps` of how each freed node after the first, and each stacked
/// node, was reached from an earlier freed node.
#[verifier::opaque]
pub open spec fn free_walk_ok(v: TreeView, node: usize, f: Seq<usize>, s: Seq<usize>, pf: Seq<int>, ps: Seq<int>) -> bool {
    &&& f.no_duplicates()
    &&& f.len() == 0 ==> s == seq![node]
    &&& f.len() > 0 ==> f[0] == node
    &&& forall|k: int| 0 <= k < f.len() ==> (#[trigger] f[k] as int) < v.nodes.len()
    &&& forall|k: int| 0 <= k < s.len() ==> (#[trigger] s[k] as int) < v.nodes.len()
    &&& forall|k: int, c: usize|
        0 <= k < f.len() && #[trigger] v.nodes[f[k] as int].children.contains(c) ==> f.contains(c) || s.contains(c)
    &&& pf.len() == f.len()
    &&& forall|k: int| 0 < k < f.len() ==> 0 <= #[trigger] pf[k] < k && v.nodes[f[pf[k]] as int].children.contains(f[k])
    &&& ps.len() == s.len()
    &&& f.len() > 0 ==> forall|k: int|
        0 <= k < s.len() ==> 0 <= #[trigger] ps[k] < f.len() && v.nodes[f[ps[k]] as int].children.contains(s[k])
}

/// When the stack is empty, the freed nodes are closed under children and
/// each was reached from an earlier one; the tree is well formed.
proof fn lemma_free_walk_done(v: TreeView, r: Seq<nat>, node: usize, f: Seq<usize>, pf: Seq<int>, ps: Seq<int>)
    requires
        structure_ok(v),
        rank_valid(v, r),
        free_walk_ok(v, node, f, Seq::empty(), pf, ps),
    ensures
        structure_ok(freed_view(v, f)),
        rank_valid(freed_view(v, f), r),
        f.len() >= 1,
        f[0] == node,
        f.no_duplicates(),
        forall|k: int| 0 <= k < f.len() ==> (#[trigger] f[k] as int) < v.nodes.len(),
        forall|k: int, c: usize| 0 <= k < f.len() && #[trigger] v.nodes[f[k] as int].children.contains(c) ==> f.contains(c),
        forall|k: int| 0 < k < f.len() ==> #[trigger] reached_earlier(v, f, k),
{
    lemma_free_walk_done_facts(v, node, f, pf, ps);
    lemma_freed_final(v, r, f);
}

#[verifier::spinoff_prover]
#[verifier::rlimit(60)]
proof fn lemma_free_walk_done_facts(v: TreeView, node: usize, f: Seq<usize>, pf: Seq<int>, ps: Seq<int>)
    requires
        free_walk_ok(v, node, f, Seq::empty(), pf, ps),
    ensures
        f.len() >= 1,
        f[0] == node,
        f.no_duplicates(),
        forall|k: int| 0 <= k < f.len() ==> (#[trigger] f[k] as int) < v.nodes.len(),
        forall|k: int, c: usize| 0 <= k < f.len() && #[trigger] v.nodes[f[k] as int].children.contains(c) ==> f.contains(c),
        forall|k: int| 0 < k < f.len() ==> #[trigger] reached_earlier(v, f, k),
{
    reveal(free_walk_ok);
    assert forall|k: int| 0 < k < f.len() implies #[trigger] reached_earlier(v, f, k) by {
        let j = pf[k];
        assert(0 <= j < k && v.nodes[f[j] as int].children.contains(f[k]));
    }
    if f.len() == 0 {
        assert(Seq::<usize>::empty().len() == 0);
        assert(seq![node].len() == 1);
    }
    assert forall|k: int, c: usize| 0 <= k < f.len() && #[trigger] v.nodes[f[k] as int].children.contains(c) implies f.contains(c) by {
        assert(!Seq::<usize>::empty().contains(c));
    }
}

/// Freeing a node takes its children entries out of the total.
proof fn lemma_free_measure(v: TreeView, x: usize)
    requires
        (x as int) < v.nodes.len(),
    ensures
        total_children(with_owner(with_children(v, x, Seq::empty()), x, None).nodes) + v.nodes[x as int].children.len()
            == total_children(v.nodes),
{
    let mid = with_children(v, x, Seq::empty());
    lemma_total_children_update(v.nodes, x as int, NodeView { children: Seq::empty(), ..v.nodes[x as int] });
    lemma_total_children_update(mid.nodes, x as int, NodeView { owner: None, ..mid.nodes[x as int] });
    assert(mid.nodes.update(x as int, NodeView { owner: None, ..mid.nodes[x as int] }) =~= with_owner(mid, x, None).nodes);
}

/// The walk's state at the start: nothing freed, `node` stacked.
proof fn lemma_free_walk_start(v: TreeView, node: usize)
    requires
        (node as int) < v.nodes.len(),
    ensures
        free_walk_ok(v, node, Seq::empty(), seq![node], Seq::empty(), seq![0int]),
{
    reveal(free_walk_ok);
    assert forall|k: int| 0 <= k < seq![node].len() implies (#[trigger] seq![node][k] as int) < v.nodes.len() by {
        assert(seq![node][k] == node);
    }
}

/// The nodes freed and stacked are node ids.
proof fn lemma_free_walk_bounds(v: TreeView, node: usize, f: Seq<usize>, s: Seq<usize>, pf: Seq<int>, ps: Seq<int>)
    requires
        free_walk_ok(v, node, f, s, pf, ps),
    ensures
        forall|k: int| 0 <= k < f.len() ==> (#[trigger] f[k] as int) < v.nodes.len(),
        forall|k: int| 0 <= k < s.len() ==> (#[trigger] s[k] as int) < v.nodes.len(),
{
    reveal(free_walk_ok);
}

/// Popping a node already freed keeps the walk's state.
proof fn lemma_free_skip(
    v: TreeView,
    node: usize,
    f: Seq<usize>,
    s_old: Seq<usize>,
    s_new: Seq<usize>,
    x: usize,
    pf: Seq<int>,
    ps: Seq<int>,
)
    requires
        free_walk_ok(v, node, f, s_old, pf, ps),
        s_old.len() >= 1,
        s_old == s_new.push(x),
        f.contains(x),
    ensures
        free_walk_ok(v, node, f, s_new, pf, ps.drop_last()),
{
    reveal(free_walk_ok);
    assert(f.len() > 0) by {
        if f.len() == 0 {
            assert(!f.contains(x));
        }
    }
    assert forall|k: int| 0 <= k < s_new.len() implies (#[trigger] s_new[k] as int) < v.nodes.len() by {
        assert(s_new[k] == s_old[k]);
    }
    assert forall|k: int, c: usize|
        0 <= k < f.len() && #[trigger] v.nodes[f[k] as int].children.contains(c) implies f.contains(c) || s_new.contains(c) by {
        if !f.contains(c) {
            let q = choose|q: int| 0 <= q < s_old.len() && s_old[q] == c;
            assert(q < s_new.len());
            assert(s_new[q] == c);
        }
    }
    let ps2 = ps.drop_last();
    assert forall|k: int| 0 <= k < s_new.len() implies 0 <= #[trigger] ps2[k] < f.len() && v.nodes[f[ps2[k]] as int].children.contains(s_new[k]) by {
        assert(ps2[k] == ps[k]);
        assert(s_new[k] == s_old[k]);
    }
}

/// Freeing a popped node that was not freed yet: it joins the freed nodes
/// and its children join the stack.
proof fn lemma_free_step(
    v: TreeView,
    node: usize,
    f: Seq<usize>,
    s_old: Seq<usize>,
    s_new: Seq<usize>,
    x: usize,
    pf: Seq<int>,
    ps: Seq<int>,
) -> (r: (Seq<int>, Seq<int>))
    requires
        free_walk_ok(v, node, f, s_old, pf, ps),
        !f.contains(x),
        s_old.len() >= 1,
        s_old.last() == x,
        s_new == s_old.drop_last() + v.nodes[x as int].children,
        (x as int) < v.nodes.len(),
        structure_ok(v),
    ensures
        free_walk_ok(v, node, f.push(x), s_new, r.0, r.1),
{
    reveal(free_walk_ok);
    let f2 = f.push(x);
    let cs = v.nodes[x as int].children;
    let sp = s_old.drop_last();
    let px: int = if f.len() == 0 { 0 } else { ps[s_old.len() - 1] };
    let pf2 = pf.push(px);
    let ps2 = ps.drop_last() + Seq::new(cs.len(), |i: int| f.len() as int);
    assert(f2[f.len() as int] == x);
    assert forall|k: int| 0 <= k < f2.len() implies (#[trigger] f2[k] as int) < v.nodes.len() by {
        if k < f.len() {
            assert(f2[k] == f[k]);
        }
    }
    assert forall|k: int| 0 <= k < s_new.len() implies (#[trigger] s_new[k] as int) < v.nodes.len() by {
        if k < sp.len() {
            assert(s_new[k] == s_old[k]);
        } else {
            assert(s_new[k] == cs[k - sp.len()]);
        }
    }
    if f.len() == 0 {
        assert(x == node);
    } else {
        assert(f2[0] == f[0]);
    }
    assert forall|k: int, c: usize|
        0 <= k < f2.len() && #[trigger] v.nodes[f2[k] as int].children.contains(c) implies f2.contains(c)
            || s_new.contains(c) by {
        if k < f.len() {
            assert(f2[k] == f[k]);
            if f.contains(c) {
                let q = choose|q: int| 0 <= q < f.len() && f[q] == c;
                assert(f2[q] == c);
            } else {
                let q = choose|q: int| 0 <= q < s_old.len() && s_old[q] == c;
                if q == s_old.len() - 1 {
                    assert(f2[f.len() as int] == c);
                } else {
                    assert(s_new[q] == c);
                }
            }
        } else {
            let q = choose|q: int| 0 <= q < cs.len() && cs[q] == c;
            assert(s_new[sp.len() + q] == c);
        }
    }
    assert forall|k: int| 0 < k < f2.len() implies 0 <= #[trigger] pf2[k] < k && v.nodes[f2[pf2[k]] as int].children.contains(f2[k]) by {
        if k < f.len() {
            assert(pf2[k] == pf[k]);
            assert(f2[k] == f[k]);
            assert(f2[pf[k]] == f[pf[k]]);
        } else {
            assert(f.len() > 0);
            assert(pf2[k] == px);
            assert(f2[px] == f[px]);
        }
    }
    assert forall|k: int| 0 <= k < s_new.len() implies 0 <= #[trigger] ps2[k] < f2.len() && v.nodes[f2[ps2[k]] as int].children.contains(s_new[k]) by {
        if k < sp.len() {
            assert(f.len() > 0) by {
                if f.len() == 0 {
                    assert(sp.len() == 0);
                }
            }
            assert(ps2[k] == ps[k]);
            assert(s_new[k] == s_old[k]);
            assert(f2[ps[k]] == f[ps[k]]);
        } else {
            assert(ps2[k] == f.len() as int);
            assert(s_new[k] == cs[k - sp.len()]);
            assert(cs.contains(s_new[k]));
        }
    }
    assert forall|a: int, b: int| 0 <= a < f2.len() && 0 <= b < f2.len() && a != b implies f2[a] != f2[b] by {
        if a < f.len() && b < f.len() {
            assert(f2[a] == f[a] && f2[b] == f[b]);
        } else if a < f.len() {
            assert(f2[a] == f[a]);
        } else if b < f.len() {
            assert(f2[b] == f[b]);
        }
    }
    (pf2, ps2)
}

/// Whether `id` is among `ids`.
fn contains_id(ids: &Vec<usize>, id: usize) -> (r: bool)
    ensures
        r == ids@.contains(id),
{
    let mut i: usize = 0;
    while i < ids.len()
        invariant
            i <= ids.len(),
            forall|k: int| 0 <= k < i ==> ids@[k] != id,
        decreases ids.len() - i,
    {
        if ids[i] == id {
            return true;
        }
        i = i + 1;
    }
    false
}

/// Freeing one more node.
proof fn lemma_freed_push(v: TreeView, f: Seq<usize>, x: usize)
    requires
        !f.contains(x),
        (x as int) < v.nodes.len(),
        v.nodes.len() <= usize::MAX,
    ensures
        freed_view(v, f.push(x)) == with_owner(with_children(freed_view(v, f), x, Seq::empty()), x, None),
{
    let lhs = freed_view(v, f.push(x));
    let rhs = with_owner(with_children(freed_view(v, f), x, Seq::empty()), x, None);
    assert forall|j: int| 0 <= j < v.nodes.len() implies lhs.nodes[j] == rhs.nodes[j] by {
        if j == x as int {
            assert(f.push(x)[f.len() as int] == x);
        } else {
            assert(f.push(x).contains(j as usize) == f.contains(j as usize)) by {
                if f.push(x).contains(j as usize) {
                    let q = choose|q: int| 0 <= q < f.push(x).len() && f.push(x)[q] == j as usize;
                    assert(q < f.len());
                    assert(f[q] == j as usize);
                }
                if f.contains(j as usize) {
                    let q = choose|q: int| 0 <= q < f.len() && f[q] == j as usize;
                    assert(f.push(x)[q] == j as usize);
                }
            }
        }
    }
    assert(lhs =~= rhs);
}

/// Once every child of a freed node is freed, the tree is well formed.
proof fn lemma_freed_final(v: TreeView, r: Seq<nat>, f: Seq<usize>)
    requires
        structure_ok(v),
        rank_valid(v, r),
        forall|k: int| 0 <= k < f.len() ==> (#[trigger] f[k] as int) < v.nodes.len(),
        forall|k: int, c: usize| 0 <= k < f.len() && #[trigger] v.nodes[f[k] as int].children.contains(c) ==> f.contains(c),
    ensures
        structure_ok(freed_view(v, f)),
        rank_valid(freed_view(v, f), r),
{
    let w = freed_view(v, f);
    lemma_cut_shortens_chain(v, w, r, 0);
    assert forall|i: int| 0 <= i < w.nodes.len() implies (#[trigger] w.nodes[i].owner matches Some(p) ==> (p as int)
        < w.nodes.len() && w.nodes[p as int].children.contains(i as usize)) by {
        match w.nodes[i].owner {
            Some(p) => {
                assert(!f.contains(i as usize));
                assert(v.nodes[i].owner == Some(p));
                if f.contains(p) {
                    let k = choose|k: int| 0 <= k < f.len() && f[k] == p;
                    assert(v.nodes[f[k] as int].children.contains(i as usize));
                }
                assert(w.nodes[p as int] == v.nodes[p as int]);
            },
            None => {},
        }
    }
    assert forall|i: int, k: int|
        0 <= i < w.nodes.len() && 0 <= k < w.nodes[i].children.len() implies (#[trigger] w.nodes[i].children[k]
        as int) < w.nodes.len() by {
        assert(w.nodes[i].children == v.nodes[i].children);
    }
    assert forall|i: int| 0 <= i < w.nodes.len() implies (#[trigger] w.nodes[i].data.config as int) < w.configs.len() by {
        assert(w.nodes[i].data == v.nodes[i].data);
    }
}

} // verus!
