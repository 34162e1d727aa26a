//! The mathematical model of the param arena.
//!
//! An arena is modelled as a sequence of slots, each holding one node
//! ([`NodeV`]); container nodes name their children by slot index.  A whole
//! subtree unfolds into a [`Tree`], a value with no sharing.  Because slot
//! graphs can in principle be cyclic, the unfolding is defined with a fuel
//! bound; a slot is well formed exactly when some fuel suffices, and the
//! unfolding is independent of the fuel chosen (monotonicity, below).

use vstd::prelude::*;

verus! {

/// Spec-level content of one arena slot.  Scalars carry their payload;
/// `List` and `Struct` carry the slot indices of their children.
pub ghost enum NodeV {
    Bool(bool),
    I8(i8),
    U8(u8),
    I16(i16),
    U16(u16),
    I32(i32),
    U32(u32),
    /// The raw bit pattern of a 32-bit floating-point payload.
    FloatBits(u32),
    Hash(u64),
    Str(Seq<char>),
    List(Seq<int>),
    Struct(Seq<(u64, int)>),
}

/// One whole subtree as a mathematical value, with all sharing unfolded.
pub ghost enum Tree {
    Bool(bool),
    I8(i8),
    U8(u8),
    I16(i16),
    U16(u16),
    I32(i32),
    U32(u32),
    FloatBits(u32),
    Hash(u64),
    Str(Seq<char>),
    List(Seq<Tree>),
    Struct(Seq<(u64, Tree)>),
}

/// Whether a node is one of the non-container variants.
pub open spec fn is_scalar(n: NodeV) -> bool {
    !(n is List) && !(n is Struct)
}

/// The slot indices of a node's immediate children.
pub open spec fn kids(n: NodeV) -> Seq<int> {
    match n {
        NodeV::List(cs) => cs,
        NodeV::Struct(ps) => ps.map_values(|p: (u64, int)| p.1),
        _ => Seq::empty(),
    }
}

/// The leaf tree of a scalar node.
pub open spec fn scalar_tree(n: NodeV) -> Tree {
    match n {
        NodeV::Bool(v) => Tree::Bool(v),
        NodeV::I8(v) => Tree::I8(v),
        NodeV::U8(v) => Tree::U8(v),
        NodeV::I16(v) => Tree::I16(v),
        NodeV::U16(v) => Tree::U16(v),
        NodeV::I32(v) => Tree::I32(v),
        NodeV::U32(v) => Tree::U32(v),
        NodeV::FloatBits(v) => Tree::FloatBits(v),
        NodeV::Hash(v) => Tree::Hash(v),
        NodeV::Str(v) => Tree::Str(v),
        NodeV::List(_) => arbitrary(),
        NodeV::Struct(_) => arbitrary(),
    }
}

/// The stable integer code of a node's variant.
pub open spec fn type_code(n: NodeV) -> u8 {
    match n {
        NodeV::Bool(_) => 1,
        NodeV::I8(_) => 2,
        NodeV::U8(_) => 3,
        NodeV::I16(_) => 4,
        NodeV::U16(_) => 5,
        NodeV::I32(_) => 6,
        NodeV::U32(_) => 7,
        NodeV::FloatBits(_) => 8,
        NodeV::Hash(_) => 9,
        NodeV::Str(_) => 10,
        NodeV::List(_) => 11,
        NodeV::Struct(_) => 12,
    }
}

/// Unfolds the subtree rooted at slot `i`, spending one unit of fuel per
/// level; `None` when the fuel runs out or a slot index is invalid.
pub open spec fn tree_at(a: Seq<NodeV>, i: int, fuel: nat) -> Option<Tree>
    decreases fuel, 0int, 0int,
{
    if fuel == 0 {
        None
    } else if !(0 <= i < a.len()) {
        None
    } else {
        match a[i] {
            NodeV::List(cs) => match list_at(a, cs, (fuel - 1) as nat) {
                Some(ts) => Some(Tree::List(ts)),
                None => None,
            },
            NodeV::Struct(ps) => match pairs_at(a, ps, (fuel - 1) as nat) {
                Some(ts) => Some(Tree::Struct(ts)),
                None => None,
            },
            n => Some(scalar_tree(n)),
        }
    }
}

/// Unfolds every slot of `cs` at the given fuel.
pub open spec fn list_at(a: Seq<NodeV>, cs: Seq<int>, fuel: nat) -> Option<Seq<Tree>>
    decreases fuel, 1int, cs.len(),
{
    if cs.len() == 0 {
        Some(Seq::empty())
    } else {
        match (tree_at(a, cs[0], fuel), list_at(a, cs.drop_first(), fuel)) {
            (Some(t), Some(ts)) => Some(seq![t] + ts),
            _ => None,
        }
    }
}

/// Unfolds the value slot of every keyed pair of `ps` at the given fuel.
pub open spec fn pairs_at(a: Seq<NodeV>, ps: Seq<(u64, int)>, fuel: nat) -> Option<
    Seq<(u64, Tree)>,
>
    decreases fuel, 1int, ps.len(),
{
    if ps.len() == 0 {
        Some(Seq::empty())
    } else {
        match (tree_at(a, ps[0].1, fuel), pairs_at(a, ps.drop_first(), fuel)) {
            (Some(t), Some(ts)) => Some(seq![(ps[0].0, t)] + ts),
            _ => None,
        }
    }
}

/// Whether some fuel suffices to unfold the subtree at slot `i`.
pub open spec fn has_tree(a: Seq<NodeV>, i: int) -> bool {
    exists|fuel: nat| tree_at(a, i, fuel) is Some
}

/// The subtree at slot `i`, at any sufficient fuel (well defined by
/// monotonicity whenever `has_tree` holds).
pub open spec fn tree_of(a: Seq<NodeV>, i: int) -> Tree {
    tree_at(a, i, choose|fuel: nat| tree_at(a, i, fuel) is Some)->Some_0
}

/// Every slot of the arena unfolds to a finite tree; in particular the slot
/// graph is acyclic and every child index is in bounds.
pub open spec fn wf(a: Seq<NodeV>) -> bool {
    forall|i: int| 0 <= i < a.len() ==> has_tree(a, i)
}

/// Every child of every slot in `[lo, hi)` is itself in `[lo, hi)`.
pub open spec fn region_contained(a: Seq<NodeV>, lo: int, hi: int) -> bool {
    forall|j: int, k: int|
        lo <= j < hi && 0 <= k < kids(a[j]).len() ==> lo <= #[trigger] kids(a[j])[k] < hi
}

/// Unfolding is independent of the fuel, once the fuel suffices.
pub proof fn lemma_tree_at_mono(a: Seq<NodeV>, i: int, f1: nat, f2: nat)
    requires
        f1 <= f2,
        tree_at(a, i, f1) is Some,
    ensures
        tree_at(a, i, f2) == tree_at(a, i, f1),
    decreases f1, 0int, 0int,
{
    if 0 <= i < a.len() {
        match a[i] {
            NodeV::List(cs) => lemma_list_at_mono(a, cs, (f1 - 1) as nat, (f2 - 1) as nat),
            NodeV::Struct(ps) => lemma_pairs_at_mono(a, ps, (f1 - 1) as nat, (f2 - 1) as nat),
            _ => {},
        }
    }
}

/// Fuel independence for `list_at`.
pub proof fn lemma_list_at_mono(a: Seq<NodeV>, cs: Seq<int>, f1: nat, f2: nat)
    requires
        f1 <= f2,
        list_at(a, cs, f1) is Some,
    ensures
        list_at(a, cs, f2) == list_at(a, cs, f1),
    decreases f1, 1int, cs.len(),
{
    if cs.len() > 0 {
        lemma_tree_at_mono(a, cs[0], f1, f2);
        lemma_list_at_mono(a, cs.drop_first(), f1, f2);
    }
}

/// Fuel independence for `pairs_at`.
pub proof fn lemma_pairs_at_mono(a: Seq<NodeV>, ps: Seq<(u64, int)>, f1: nat, f2: nat)
    requires
        f1 <= f2,
        pairs_at(a, ps, f1) is Some,
    ensures
        pairs_at(a, ps, f2) == pairs_at(a, ps, f1),
    decreases f1, 1int, ps.len(),
{
    if ps.len() > 0 {
        lemma_tree_at_mono(a, ps[0].1, f1, f2);
        lemma_pairs_at_mono(a, ps.drop_first(), f1, f2);
    }
}

/// Any successful unfolding equals the canonical one.
pub proof fn lemma_tree_at_tree_of(a: Seq<NodeV>, i: int, f: nat)
    requires
        tree_at(a, i, f) is Some,
    ensures
        has_tree(a, i),
        tree_at(a, i, f) == Some(tree_of(a, i)),
{
    assert(has_tree(a, i));
    let fc = choose|fuel: nat| tree_at(a, i, fuel) is Some;
    if fc <= f {
        lemma_tree_at_mono(a, i, fc, f);
    } else {
        lemma_tree_at_mono(a, i, f, fc);
    }
}

/// The stable integer code of a tree's root variant.
pub open spec fn tree_kind(t: Tree) -> u8 {
    match t {
        Tree::Bool(_) => 1,
        Tree::I8(_) => 2,
        Tree::U8(_) => 3,
        Tree::I16(_) => 4,
        Tree::U16(_) => 5,
        Tree::I32(_) => 6,
        Tree::U32(_) => 7,
        Tree::FloatBits(_) => 8,
        Tree::Hash(_) => 9,
        Tree::Str(_) => 10,
        Tree::List(_) => 11,
        Tree::Struct(_) => 12,
    }
}

/// A scalar slot's tree is its leaf.
pub proof fn lemma_tree_of_scalar(a: Seq<NodeV>, i: int)
    requires
        0 <= i < a.len(),
        is_scalar(a[i]),
    ensures
        has_tree(a, i),
        tree_of(a, i) == scalar_tree(a[i]),
{
    assert(tree_at(a, i, 1) is Some);
    lemma_tree_at_tree_of(a, i, 1);
}

/// A slot's tree carries the slot's own variant at its root.
pub proof fn lemma_tree_kind(a: Seq<NodeV>, i: int)
    requires
        0 <= i < a.len(),
        has_tree(a, i),
    ensures
        tree_kind(tree_of(a, i)) == type_code(a[i]),
{
    if is_scalar(a[i]) {
        lemma_tree_of_scalar(a, i);
    } else if a[i] is List {
        lemma_unfold_list(a, i);
    } else {
        lemma_unfold_struct(a, i);
    }
}

/// A successful `list_at` unfolds exactly the slots of `cs`, pointwise.
pub proof fn lemma_list_at_index(a: Seq<NodeV>, cs: Seq<int>, f: nat)
    requires
        list_at(a, cs, f) is Some,
    ensures
        list_at(a, cs, f)->Some_0.len() == cs.len(),
        forall|k: int| 0 <= k < cs.len() ==> tree_at(a, #[trigger] cs[k], f) is Some,
        forall|k: int|
            0 <= k < cs.len() ==> list_at(a, cs, f)->Some_0[k] == tree_at(
                a,
                #[trigger] cs[k],
                f,
            )->Some_0,
    decreases cs.len(),
{
    if cs.len() > 0 {
        lemma_list_at_index(a, cs.drop_first(), f);
        assert forall|k: int| 1 <= k < cs.len() implies tree_at(a, #[trigger] cs[k], f) is Some
            && list_at(a, cs, f)->Some_0[k] == tree_at(a, cs[k], f)->Some_0 by {
            assert(cs.drop_first()[k - 1] == cs[k]);
        }
    }
}

/// A successful `pairs_at` keeps every key and unfolds every value slot.
pub proof fn lemma_pairs_at_index(a: Seq<NodeV>, ps: Seq<(u64, int)>, f: nat)
    requires
        pairs_at(a, ps, f) is Some,
    ensures
        pairs_at(a, ps, f)->Some_0.len() == ps.len(),
        forall|k: int| 0 <= k < ps.len() ==> tree_at(a, #[trigger] ps[k].1, f) is Some,
        forall|k: int|
            0 <= k < ps.len() ==> #[trigger] pairs_at(a, ps, f)->Some_0[k] == (
            ps[k].0,
            tree_at(a, ps[k].1, f)->Some_0,
            ),
    decreases ps.len(),
{
    if ps.len() > 0 {
        lemma_pairs_at_index(a, ps.drop_first(), f);
        assert forall|k: int| 1 <= k < ps.len() implies tree_at(a, #[trigger] ps[k].1, f) is Some
            && pairs_at(a, ps, f)->Some_0[k] == (ps[k].0, tree_at(a, ps[k].1, f)->Some_0) by {
            assert(ps.drop_first()[k - 1] == ps[k]);
        }
    }
}

/// Unfolding one level of a well-formed list node: every child is well
/// formed, and the node's tree is the children's trees in order.
pub proof fn lemma_unfold_list(a: Seq<NodeV>, i: int)
    requires
        has_tree(a, i),
        0 <= i < a.len(),
        a[i] is List,
    ensures
        forall|k: int| 0 <= k < kids(a[i]).len() ==> has_tree(a, #[trigger] kids(a[i])[k]),
        a[i] matches NodeV::List(cs) ==> tree_of(a, i) == Tree::List(
            cs.map_values(|c: int| tree_of(a, c)),
        ),
{
    let f = choose|fuel: nat| tree_at(a, i, fuel) is Some;
    let cs = kids(a[i]);
    let sub = (f - 1) as nat;
    assert(list_at(a, cs, sub) is Some);
    lemma_list_at_index(a, cs, sub);
    assert forall|k: int| 0 <= k < cs.len() implies has_tree(a, #[trigger] cs[k]) && tree_of(
        a,
        cs[k],
    ) == list_at(a, cs, sub)->Some_0[k] by {
        lemma_tree_at_tree_of(a, cs[k], sub);
    }
    lemma_tree_at_tree_of(a, i, f);
    assert(list_at(a, cs, sub)->Some_0 =~= cs.map_values(|c: int| tree_of(a, c)));
}

/// Unfolding one level of a well-formed struct node.
pub proof fn lemma_unfold_struct(a: Seq<NodeV>, i: int)
    requires
        has_tree(a, i),
        0 <= i < a.len(),
        a[i] is Struct,
    ensures
        forall|k: int| 0 <= k < kids(a[i]).len() ==> has_tree(a, #[trigger] kids(a[i])[k]),
        a[i] matches NodeV::Struct(ps) ==> tree_of(a, i) == Tree::Struct(
            ps.map_values(|p: (u64, int)| (p.0, tree_of(a, p.1))),
        ),
{
    let f = choose|fuel: nat| tree_at(a, i, fuel) is Some;
    let ps = a[i]->Struct_0;
    let sub = (f - 1) as nat;
    assert(pairs_at(a, ps, sub) is Some);
    lemma_pairs_at_index(a, ps, sub);
    assert forall|k: int| 0 <= k < ps.len() implies has_tree(a, #[trigger] ps[k].1) && tree_of(
        a,
        ps[k].1,
    ) == pairs_at(a, ps, sub)->Some_0[k].1 by {
        lemma_tree_at_tree_of(a, ps[k].1, sub);
    }
    assert forall|k: int| 0 <= k < kids(a[i]).len() implies has_tree(
        a,
        #[trigger] kids(a[i])[k],
    ) by {
        assert(kids(a[i])[k] == ps[k].1);
    }
    lemma_tree_at_tree_of(a, i, f);
    assert(pairs_at(a, ps, sub)->Some_0 =~= ps.map_values(|p: (u64, int)| (p.0, tree_of(a, p.1))));
}

/// Slots that all unfold at some fuel unfold together at a common fuel.
pub proof fn lemma_fold_list(a: Seq<NodeV>, cs: Seq<int>)
    requires
        forall|k: int| 0 <= k < cs.len() ==> has_tree(a, #[trigger] cs[k]),
    ensures
        exists|f: nat| list_at(a, cs, f) is Some,
    decreases cs.len(),
{
    if cs.len() == 0 {
        assert(list_at(a, cs, 0) is Some);
    } else {
        assert(has_tree(a, cs[0]));
        let f0 = choose|f: nat| tree_at(a, cs[0], f) is Some;
        assert forall|k: int| 0 <= k < cs.drop_first().len() implies has_tree(
            a,
            #[trigger] cs.drop_first()[k],
        ) by {
            assert(cs.drop_first()[k] == cs[k + 1]);
        }
        lemma_fold_list(a, cs.drop_first());
        let f1 = choose|f: nat| list_at(a, cs.drop_first(), f) is Some;
        let f = if f0 <= f1 {
            f1
        } else {
            f0
        };
        lemma_tree_at_mono(a, cs[0], f0, f);
        lemma_list_at_mono(a, cs.drop_first(), f1, f);
        assert(list_at(a, cs, f) is Some);
    }
}

/// The keyed analogue of `lemma_fold_list`.
pub proof fn lemma_fold_pairs(a: Seq<NodeV>, ps: Seq<(u64, int)>)
    requires
        forall|k: int| 0 <= k < ps.len() ==> has_tree(a, #[trigger] ps[k].1),
    ensures
        exists|f: nat| pairs_at(a, ps, f) is Some,
    decreases ps.len(),
{
    if ps.len() == 0 {
        assert(pairs_at(a, ps, 0) is Some);
    } else {
        assert(has_tree(a, ps[0].1));
        let f0 = choose|f: nat| tree_at(a, ps[0].1, f) is Some;
        assert forall|k: int| 0 <= k < ps.drop_first().len() implies has_tree(
            a,
            #[trigger] ps.drop_first()[k].1,
        ) by {
            assert(ps.drop_first()[k] == ps[k + 1]);
        }
        lemma_fold_pairs(a, ps.drop_first());
        let f1 = choose|f: nat| pairs_at(a, ps.drop_first(), f) is Some;
        let f = if f0 <= f1 {
            f1
        } else {
            f0
        };
        lemma_tree_at_mono(a, ps[0].1, f0, f);
        lemma_pairs_at_mono(a, ps.drop_first(), f1, f);
        assert(pairs_at(a, ps, f) is Some);
    }
}

/// Appending a slot does not change the unfolding of existing slots.
pub proof fn lemma_tree_at_push(a: Seq<NodeV>, n: NodeV, i: int, f: nat)
    requires
        tree_at(a, i, f) is Some,
    ensures
        tree_at(a.push(n), i, f) == tree_at(a, i, f),
    decreases f, 0int, 0int,
{
    assert(a.push(n)[i] == a[i]);
    match a[i] {
        NodeV::List(cs) => lemma_list_at_push(a, n, cs, (f - 1) as nat),
        NodeV::Struct(ps) => lemma_pairs_at_push(a, n, ps, (f - 1) as nat),
        _ => {},
    }
}

/// `lemma_tree_at_push` lifted to child lists.
pub proof fn lemma_list_at_push(a: Seq<NodeV>, n: NodeV, cs: Seq<int>, f: nat)
    requires
        list_at(a, cs, f) is Some,
    ensures
        list_at(a.push(n), cs, f) == list_at(a, cs, f),
    decreases f, 1int, cs.len(),
{
    if cs.len() > 0 {
        lemma_tree_at_push(a, n, cs[0], f);
        lemma_list_at_push(a, n, cs.drop_first(), f);
    }
}

/// `lemma_tree_at_push` lifted to keyed pair lists.
pub proof fn lemma_pairs_at_push(a: Seq<NodeV>, n: NodeV, ps: Seq<(u64, int)>, f: nat)
    requires
        pairs_at(a, ps, f) is Some,
    ensures
        pairs_at(a.push(n), ps, f) == pairs_at(a, ps, f),
    decreases f, 1int, ps.len(),
{
    if ps.len() > 0 {
        lemma_tree_at_push(a, n, ps[0].1, f);
        lemma_pairs_at_push(a, n, ps.drop_first(), f);
    }
}

/// Pushing a node whose children are existing well-formed slots keeps the
/// arena well formed and leaves every existing tree unchanged.
pub proof fn lemma_wf_push(a: Seq<NodeV>, n: NodeV)
    requires
        wf(a),
        forall|k: int| 0 <= k < kids(n).len() ==> 0 <= #[trigger] kids(n)[k] < a.len(),
    ensures
        wf(a.push(n)),
        has_tree(a.push(n), a.len() as int),
        forall|i: int|
            0 <= i < a.len() ==> has_tree(a.push(n), i) && tree_of(a.push(n), i) == tree_of(a, i),
{
    let a2 = a.push(n);
    let l = a.len() as int;
    assert forall|i: int| 0 <= i < a.len() implies has_tree(a2, i) && tree_of(a2, i) == tree_of(
        a,
        i,
    ) by {
        assert(has_tree(a, i));
        let f = choose|f: nat| tree_at(a, i, f) is Some;
        lemma_tree_at_push(a, n, i, f);
        lemma_tree_at_tree_of(a, i, f);
        lemma_tree_at_tree_of(a2, i, f);
    }
    assert(a2[l] == n);
    match n {
        NodeV::List(cs) => {
            assert(kids(n) == cs);
            lemma_fold_list(a2, cs);
            let f = choose|f: nat| list_at(a2, cs, f) is Some;
            assert(tree_at(a2, l, f + 1) is Some);
        },
        NodeV::Struct(ps) => {
            assert forall|k: int| 0 <= k < ps.len() implies has_tree(a2, #[trigger] ps[k].1) by {
                assert(kids(n)[k] == ps[k].1);
            }
            lemma_fold_pairs(a2, ps);
            let f = choose|f: nat| pairs_at(a2, ps, f) is Some;
            assert(tree_at(a2, l, f + 1) is Some);
        },
        _ => {
            assert(tree_at(a2, l, 1) is Some);
        },
    }
}

/// Replacing a slot with a childless node preserves unfolding success
/// (the affected subtrees just end at the new leaf).
pub proof fn lemma_tree_at_update_childless(a: Seq<NodeV>, j: int, n: NodeV, i: int, f: nat)
    requires
        tree_at(a, i, f) is Some,
        kids(n).len() == 0,
        0 <= j < a.len(),
    ensures
        tree_at(a.update(j, n), i, f) is Some,
    decreases f, 0int, 0int,
{
    let a2 = a.update(j, n);
    if i == j {
        match n {
            NodeV::List(cs) => {
                assert(cs.len() == 0);
                assert(list_at(a2, cs, (f - 1) as nat) is Some);
            },
            NodeV::Struct(ps) => {
                assert(ps.len() == 0);
                assert(pairs_at(a2, ps, (f - 1) as nat) is Some);
            },
            _ => {},
        }
    } else {
        assert(a2[i] == a[i]);
        match a[i] {
            NodeV::List(cs) => lemma_list_at_update_childless(a, j, n, cs, (f - 1) as nat),
            NodeV::Struct(ps) => lemma_pairs_at_update_childless(a, j, n, ps, (f - 1) as nat),
            _ => {},
        }
    }
}

/// `lemma_tree_at_update_childless` lifted to child lists.
pub proof fn lemma_list_at_update_childless(a: Seq<NodeV>, j: int, n: NodeV, cs: Seq<int>, f: nat)
    requires
        list_at(a, cs, f) is Some,
        kids(n).len() == 0,
        0 <= j < a.len(),
    ensures
        list_at(a.update(j, n), cs, f) is Some,
    decreases f, 1int, cs.len(),
{
    if cs.len() > 0 {
        lemma_tree_at_update_childless(a, j, n, cs[0], f);
        lemma_list_at_update_childless(a, j, n, cs.drop_first(), f);
    }
}

/// `lemma_tree_at_update_childless` lifted to keyed pair lists.
pub proof fn lemma_pairs_at_update_childless(
    a: Seq<NodeV>,
    j: int,
    n: NodeV,
    ps: Seq<(u64, int)>,
    f: nat,
)
    requires
        pairs_at(a, ps, f) is Some,
        kids(n).len() == 0,
        0 <= j < a.len(),
    ensures
        pairs_at(a.update(j, n), ps, f) is Some,
    decreases f, 1int, ps.len(),
{
    if ps.len() > 0 {
        lemma_tree_at_update_childless(a, j, n, ps[0].1, f);
        lemma_pairs_at_update_childless(a, j, n, ps.drop_first(), f);
    }
}

/// Replacing any slot with a childless node keeps the arena well formed.
pub proof fn lemma_wf_update_childless(a: Seq<NodeV>, j: int, n: NodeV)
    requires
        wf(a),
        0 <= j < a.len(),
        kids(n).len() == 0,
    ensures
        wf(a.update(j, n)),
{
    let a2 = a.update(j, n);
    assert forall|i: int| 0 <= i < a2.len() implies has_tree(a2, i) by {
        assert(has_tree(a, i));
        let f = choose|f: nat| tree_at(a, i, f) is Some;
        lemma_tree_at_update_childless(a, j, n, i, f);
    }
}

/// Inside a self-contained region, unfolding never looks at slots outside
/// the region, so updating an outside slot changes nothing.
pub proof fn lemma_tree_at_region_update(
    a: Seq<NodeV>,
    lo: int,
    hi: int,
    j: int,
    n: NodeV,
    i: int,
    f: nat,
)
    requires
        region_contained(a, lo, hi),
        0 <= lo,
        hi <= a.len(),
        lo <= i < hi,
        0 <= j < a.len(),
        !(lo <= j < hi),
    ensures
        tree_at(a.update(j, n), i, f) == tree_at(a, i, f),
    decreases f, 0int, 0int,
{
    if f > 0 {
        let a2 = a.update(j, n);
        assert(a2[i] == a[i]);
        match a[i] {
            NodeV::List(cs) => {
                assert forall|k: int| 0 <= k < cs.len() implies lo <= #[trigger] cs[k] < hi by {
                    assert(kids(a[i])[k] == cs[k]);
                }
                lemma_list_at_region_update(a, lo, hi, j, n, cs, (f - 1) as nat);
            },
            NodeV::Struct(ps) => {
                assert forall|k: int| 0 <= k < ps.len() implies lo <= #[trigger] ps[k].1 < hi by {
                    assert(kids(a[i])[k] == ps[k].1);
                }
                lemma_pairs_at_region_update(a, lo, hi, j, n, ps, (f - 1) as nat);
            },
            _ => {},
        }
    }
}

/// `lemma_tree_at_region_update` lifted to child lists inside the region.
pub proof fn lemma_list_at_region_update(
    a: Seq<NodeV>,
    lo: int,
    hi: int,
    j: int,
    n: NodeV,
    cs: Seq<int>,
    f: nat,
)
    requires
        region_contained(a, lo, hi),
        0 <= lo,
        hi <= a.len(),
        0 <= j < a.len(),
        !(lo <= j < hi),
        forall|k: int| 0 <= k < cs.len() ==> lo <= #[trigger] cs[k] < hi,
    ensures
        list_at(a.update(j, n), cs, f) == list_at(a, cs, f),
    decreases f, 1int, cs.len(),
{
    if cs.len() > 0 {
        lemma_tree_at_region_update(a, lo, hi, j, n, cs[0], f);
        assert forall|k: int| 0 <= k < cs.drop_first().len() implies lo
            <= #[trigger] cs.drop_first()[k] < hi by {
            assert(cs.drop_first()[k] == cs[k + 1]);
        }
        lemma_list_at_region_update(a, lo, hi, j, n, cs.drop_first(), f);
    }
}

/// `lemma_tree_at_region_update` lifted to keyed pair lists inside the region.
pub proof fn lemma_pairs_at_region_update(
    a: Seq<NodeV>,
    lo: int,
    hi: int,
    j: int,
    n: NodeV,
    ps: Seq<(u64, int)>,
    f: nat,
)
    requires
        region_contained(a, lo, hi),
        0 <= lo,
        hi <= a.len(),
        0 <= j < a.len(),
        !(lo <= j < hi),
        forall|k: int| 0 <= k < ps.len() ==> lo <= #[trigger] ps[k].1 < hi,
    ensures
        pairs_at(a.update(j, n), ps, f) == pairs_at(a, ps, f),
    decreases f, 1int, ps.len(),
{
    if ps.len() > 0 {
        lemma_tree_at_region_update(a, lo, hi, j, n, ps[0].1, f);
        assert forall|k: int| 0 <= k < ps.drop_first().len() implies lo
            <= #[trigger] ps.drop_first()[k].1 < hi by {
            assert(ps.drop_first()[k] == ps[k + 1]);
        }
        lemma_pairs_at_region_update(a, lo, hi, j, n, ps.drop_first(), f);
    }
}

/// Independence of disjoint regions: mutating a slot outside a
/// self-contained region leaves every tree rooted inside it unchanged.
/// This is what makes a deep duplicate independent of its original: the
/// copy's slots form a self-contained region, the original's slots another,
/// and a mutation in either one cannot change a tree rooted in the other.
pub proof fn lemma_region_update_frame(a: Seq<NodeV>, lo: int, hi: int, j: int, n: NodeV, i: int)
    requires
        region_contained(a, lo, hi),
        0 <= lo,
        hi <= a.len(),
        lo <= i < hi,
        0 <= j < a.len(),
        !(lo <= j < hi),
        has_tree(a, i),
    ensures
        has_tree(a.update(j, n), i),
        tree_of(a.update(j, n), i) == tree_of(a, i),
{
    let a2 = a.update(j, n);
    let f = choose|f: nat| tree_at(a, i, f) is Some;
    lemma_tree_at_region_update(a, lo, hi, j, n, i, f);
    lemma_tree_at_tree_of(a, i, f);
    lemma_tree_at_tree_of(a2, i, f);
}

/// In a well-formed arena every child index is in bounds, so the whole
/// arena is one self-contained region.
pub proof fn lemma_wf_region(a: Seq<NodeV>)
    requires
        wf(a),
    ensures
        region_contained(a, 0, a.len() as int),
{
    assert forall|j: int, k: int| 0 <= j < a.len() && 0 <= k < kids(a[j]).len() implies 0
        <= #[trigger] kids(a[j])[k] < a.len() by {
        assert(has_tree(a, j));
        let f = choose|f: nat| tree_at(a, j, f) is Some;
        let sub = (f - 1) as nat;
        match a[j] {
            NodeV::List(cs) => {
                lemma_list_at_index(a, cs, sub);
                assert(kids(a[j])[k] == cs[k]);
                assert(tree_at(a, cs[k], sub) is Some);
            },
            NodeV::Struct(ps) => {
                lemma_pairs_at_index(a, ps, sub);
                assert(kids(a[j])[k] == ps[k].1);
                assert(tree_at(a, ps[k].1, sub) is Some);
            },
            _ => {},
        }
    }
}

} // verus!
