//! The general laws of the param tree, written out and proved.
//!
//! Each law here is stated over the same spec vocabulary the operations'
//! contracts use — arena views, slot trees, regions — so that together
//! with those contracts it pins down the behaviours a caller may rely on.

use vstd::prelude::*;

use crate::arena::SharedParam;
use crate::tree::NodeV;
use crate::tree::has_tree;
use crate::tree::is_scalar;
use crate::tree::kids;
use crate::tree::lemma_region_update_frame;
use crate::tree::region_contained;
use crate::tree::tree_of;
use crate::tree::type_code;
use crate::value::ParamValue;
use crate::value::value_tree;

verus! {

/// Constructing a scalar param and reading it back returns the value
/// unchanged, with its kind's stable code: a scalar constructor pushes
/// exactly the scalar node, so the fresh slot holds it verbatim, which is
/// what `get_scalar_value` and `get_type` report.
pub proof fn lemma_scalar_round_trip(a: Seq<NodeV>, sv: NodeV)
    requires
        is_scalar(sv),
    ensures
        a.push(sv)[a.len() as int] == sv,
        is_scalar(a.push(sv)[a.len() as int]),
        type_code(a.push(sv)[a.len() as int]) == type_code(sv),
{
}

/// Mutation through one handle is observed through every alias: handles
/// alias exactly when they carry the same slot index, a setter's effect is
/// an update of that one slot, and a read through the alias reads that
/// very slot.
pub proof fn lemma_alias_mutation_observed(a: Seq<NodeV>, x: SharedParam, y: SharedParam, n: NodeV)
    requires
        x.idx == y.idx,
        x.idx < a.len(),
    ensures
        a.update(y.idx as int, n)[x.idx as int] == n,
{
}

/// Comparing a handle with its own alias returns true at any nesting
/// depth: the two handles denote the same slot, so the same tree, and
/// `param_eq` returns exactly whether the trees are equal.  (That every
/// comparison completes is part of verification itself: every verified
/// function terminates.)
pub proof fn lemma_self_alias_equal(a: Seq<NodeV>, x: SharedParam, y: SharedParam)
    requires
        x.idx == y.idx,
    ensures
        tree_of(a, x.idx as int) == tree_of(a, y.idx as int),
{
}

/// A pointwise-unchanged prefix keeps its region containment.
pub proof fn lemma_prefix_keeps_region(a: Seq<NodeV>, b: Seq<NodeV>, n: int)
    requires
        region_contained(a, 0, n),
        n <= a.len(),
        n <= b.len(),
        forall|i: int| 0 <= i < n ==> b[i] == a[i],
    ensures
        region_contained(b, 0, n),
{
    assert forall|j: int, k: int| 0 <= j < n && 0 <= k < kids(b[j]).len() implies 0
        <= #[trigger] kids(b[j])[k] < n by {
        assert(b[j] == a[j]);
        assert(kids(a[j])[k] == kids(b[j])[k]);
    }
}

/// Deep-duplicate independence: after a duplicate, the original lives in
/// the self-contained prefix `[0, n)` and the copy in the self-contained
/// region `[n, len)`, so mutating any slot of the copy's region leaves
/// every tree rooted in the original's region unchanged.
pub proof fn lemma_duplicate_independence(a: Seq<NodeV>, n: int, j: int, nn: NodeV, i: int)
    requires
        region_contained(a, 0, n),
        0 <= i < n <= j < a.len(),
        has_tree(a, i),
    ensures
        has_tree(a.update(j, nn), i),
        tree_of(a.update(j, nn), i) == tree_of(a, i),
{
    lemma_region_update_frame(a, 0, n, j, nn, i);
}

/// The mirrored direction: mutating any slot of the original's prefix
/// leaves every tree rooted in the copy's region unchanged.
pub proof fn lemma_duplicate_independence_rev(a: Seq<NodeV>, n: int, j: int, nn: NodeV, i: int)
    requires
        region_contained(a, n, a.len() as int),
        0 <= j < n <= i < a.len(),
        has_tree(a, i),
    ensures
        has_tree(a.update(j, nn), i),
        tree_of(a.update(j, nn), i) == tree_of(a, i),
{
    lemma_region_update_frame(a, n, a.len() as int, j, nn, i);
}

/// Round trip: lifting what was lowered denotes the very tree the
/// original denoted — `lower` promises the value denotes the source tree,
/// `lift` promises the fresh subtree denotes the value — so the two
/// compare structurally equal, which is what `param_eq` decides.
pub proof fn lemma_lower_lift_round_trip(
    a1: Seq<NodeV>,
    i1: int,
    v: ParamValue,
    a2: Seq<NodeV>,
    i2: int,
)
    requires
        value_tree(v) == tree_of(a1, i1),
        tree_of(a2, i2) == value_tree(v),
    ensures
        tree_of(a2, i2) == tree_of(a1, i1),
{
}

} // verus!
