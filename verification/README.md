# yoga_core

A Yoga-compatible layout node library whose logic is verified with Verus, and
its C interface.

- `src/` is the verified library:
  - `codes.rs`: Yoga's integer codes and the style enums they stand for, in
    both directions, with their round trips.
  - `values.rs`: lengths, `YGValue`s, grid placements and grid tracks.
    Single-precision numbers are carried as their bit patterns; percentages
    as fractions.
  - `edges.rs`: per-edge style values and how logical (start, end) and
    shorthand (horizontal, vertical, all) edges resolve onto the four sides
    of a box under a layout direction.
  - `style.rs`: the style a node starts with.
  - `tree.rs`: the node tree (owners, children lists, node data and
    configurations) with its invariant (owners are consistent and never
    form a cycle), and every operation on it, including marking dirty along
    the owner chain and reporting which dirtied callbacks to call.
  - `node_style.rs`: every style setter and getter.
  - `layout_plan.rs`: what a layout run hands to the layout engine (resolved
    styles and the order in which engine nodes are created, with
    `display: contents` nodes flattened) and the flags it records afterwards.
  - `laws.rs`: properties of the library as a whole.
- `app/` is the C interface: handles, callbacks, the layout engine run and the
  floating-point passes over its results.
- `tests/` runs the library on concrete values.
