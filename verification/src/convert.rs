//! Conversion between the shared-mutable arena shape and the immutable
//! flat shape, and the deep duplicate built from the two directions.
//!
//! `lower` copies a subtree out of the arena, node by node; `lift` builds a
//! freshly allocated, unaliased subtree from an immutable value.  Lifting
//! what was lowered therefore reproduces the same tree — and duplicates it
//! into slots disjoint from every older tree, which is what makes a deep
//! duplicate independent of its original.

use vstd::prelude::*;

use crate::arena::ParamArena;
use crate::arena::ParamNode;
use crate::arena::SharedParam;
use crate::arena::entries_of;
use crate::arena::refs_of;
use crate::errors::ParamError;
use crate::tree::NodeV;
use crate::tree::Tree;
use crate::tree::has_tree;
use crate::tree::kids;
use crate::tree::lemma_tree_of_scalar;
use crate::tree::lemma_unfold_list;
use crate::tree::lemma_unfold_struct;
use crate::tree::lemma_wf_region;
use crate::tree::region_contained;
use crate::tree::tree_of;
use crate::value::ParamValue;
use crate::value::lemma_pairs_trees_index;
use crate::value::lemma_values_trees_index;
use crate::value::pairs_trees;
use crate::value::value_tree;
use crate::value::values_trees;

verus! {

impl ParamArena {
    /// A point-in-time immutable copy of the subtree at `h`.
    pub fn lower(&self, h: SharedParam) -> (r: ParamValue)
        requires
            self.wf(),
            self.holds(h),
        ensures
            r@ == self.tree(h),
    {
        self.lower_at(h)
    }

    /// Lowers one slot, recursing over its children.
    #[verifier::loop_isolation(false)]
    fn lower_at(&self, h: SharedParam) -> (r: ParamValue)
        requires
            self.wf(),
            self.holds(h),
        ensures
            value_tree(r) == tree_of(self@, h.idx as int),
        decreases tree_of(self@, h.idx as int),
    {
        proof {
            assert(has_tree(self@, h.idx as int));
        }
        let ghost ti = tree_of(self@, h.idx as int);
        match self.node_ref(h) {
            ParamNode::Bool(v) => {
                proof {
                    lemma_tree_of_scalar(self@, h.idx as int);
                }
                ParamValue::Bool(*v)
            },
            ParamNode::I8(v) => {
                proof {
                    lemma_tree_of_scalar(self@, h.idx as int);
                }
                ParamValue::I8(*v)
            },
            ParamNode::U8(v) => {
                proof {
                    lemma_tree_of_scalar(self@, h.idx as int);
                }
                ParamValue::U8(*v)
            },
            ParamNode::I16(v) => {
                proof {
                    lemma_tree_of_scalar(self@, h.idx as int);
                }
                ParamValue::I16(*v)
            },
            ParamNode::U16(v) => {
                proof {
                    lemma_tree_of_scalar(self@, h.idx as int);
                }
                ParamValue::U16(*v)
            },
            ParamNode::I32(v) => {
                proof {
                    lemma_tree_of_scalar(self@, h.idx as int);
                }
                ParamValue::I32(*v)
            },
            ParamNode::U32(v) => {
                proof {
                    lemma_tree_of_scalar(self@, h.idx as int);
                }
                ParamValue::U32(*v)
            },
            ParamNode::FloatBits(v) => {
                proof {
                    lemma_tree_of_scalar(self@, h.idx as int);
                }
                ParamValue::FloatBits(*v)
            },
            ParamNode::Hash(v) => {
                proof {
                    lemma_tree_of_scalar(self@, h.idx as int);
                }
                ParamValue::Hash(*v)
            },
            ParamNode::Str(v) => {
                proof {
                    lemma_tree_of_scalar(self@, h.idx as int);
                }
                ParamValue::Str(v.clone())
            },
            ParamNode::List(va) => {
                proof {
                    lemma_unfold_list(self@, h.idx as int);
                    lemma_wf_region(self@);
                    assert(self@[h.idx as int] == NodeV::List(refs_of(va@)));
                }
                let mut out: Vec<ParamValue> = Vec::new();
                let mut k: usize = 0;
                while k < va.len()
                    invariant
                        k <= va@.len(),
                        out@.len() == k as int,
                        forall|m: int|
                            0 <= m < k ==> value_tree(#[trigger] out@[m]) == ti->List_0[m],
                    decreases va@.len() - k,
                {
                    let e = va[k];
                    proof {
                        assert(kids(self@[h.idx as int])[k as int] == e.idx as int);
                        assert(tree_of(self@, e.idx as int) == ti->List_0[k as int]);
                        assert(decreases_to!(ti => ti->List_0));
                        assert(decreases_to!(ti->List_0 => ti->List_0[k as int]));
                    }
                    let c = self.lower_at(e);
                    out.push(c);
                    k += 1;
                }
                let ghost ov = out@;
                let r = ParamValue::List(out);
                proof {
                    lemma_values_trees_index(ov);
                    assert(ti->List_0 == refs_of(va@).map_values(|c: int| tree_of(self@, c)));
                    assert(ti->List_0.len() == va@.len());
                    assert forall|m: int| 0 <= m < ov.len() implies values_trees(ov)[m]
                        == ti->List_0[m] by {
                        assert(values_trees(ov)[m] == value_tree(ov[m]));
                    }
                    assert(values_trees(ov) =~= ti->List_0);
                }
                r
            },
            ParamNode::Struct(va) => {
                proof {
                    lemma_unfold_struct(self@, h.idx as int);
                    lemma_wf_region(self@);
                    assert(self@[h.idx as int] == NodeV::Struct(entries_of(va@)));
                }
                let mut out: Vec<(crate::hash::HashKey, ParamValue)> = Vec::new();
                let mut k: usize = 0;
                while k < va.len()
                    invariant
                        k <= va@.len(),
                        out@.len() == k as int,
                        forall|m: int|
                            0 <= m < k ==> ((#[trigger] out@[m]).0.value, value_tree(out@[m].1))
                                == ti->Struct_0[m],
                    decreases va@.len() - k,
                {
                    let p = va[k];
                    proof {
                        assert(kids(self@[h.idx as int])[k as int] == p.1.idx as int);
                        assert(entries_of(va@)[k as int] == (p.0.value, p.1.idx as int));
                        assert(ti->Struct_0[k as int] == (
                            p.0.value,
                            tree_of(self@, p.1.idx as int),
                        ));
                        assert(decreases_to!(ti => ti->Struct_0));
                        assert(decreases_to!(ti->Struct_0 => ti->Struct_0[k as int]));
                        assert(decreases_to!(ti->Struct_0[k as int] => ti->Struct_0[k as int].1));
                    }
                    let c = self.lower_at(p.1);
                    out.push((p.0, c));
                    k += 1;
                }
                let ghost ov = out@;
                let r = ParamValue::Struct(out);
                proof {
                    lemma_pairs_trees_index(ov);
                    assert(ti->Struct_0 == entries_of(va@).map_values(
                        |p: (u64, int)| (p.0, tree_of(self@, p.1)),
                    ));
                    assert(ti->Struct_0.len() == va@.len());
                    assert forall|m: int| 0 <= m < ov.len() implies pairs_trees(ov)[m]
                        == ti->Struct_0[m] by {
                        assert(pairs_trees(ov)[m] == (ov[m].0.value, value_tree(ov[m].1)));
                    }
                    assert(pairs_trees(ov) =~= ti->Struct_0);
                }
                r
            },
        }
    }

    /// The immutable shape of the subtree at `h`, demanded to be
    /// struct-shaped at the root, as the binary container format's top
    /// level always is; `TypeKind` otherwise.
    pub fn lower_root(&self, h: SharedParam) -> (r: Result<ParamValue, ParamError>)
        requires
            self.wf(),
            self.holds(h),
        ensures
            self.node(h) is Struct ==> (r matches Ok(v) && v@ == self.tree(h) && v is Struct),
            !(self.node(h) is Struct) ==> r == Err::<ParamValue, ParamError>(ParamError::TypeKind),
    {
        match self.node_ref(h) {
            ParamNode::Struct(_) => {
                let v = self.lower(h);
                proof {
                    assert(has_tree(self@, h.idx as int));
                    lemma_unfold_struct(self@, h.idx as int);
                    assert(value_tree(v) is Struct);
                }
                Ok(v)
            },
            _ => Err(ParamError::TypeKind),
        }
    }

    /// Builds a freshly allocated, unaliased subtree denoting `v@`.  The
    /// new slots form a self-contained region above every older slot, and
    /// every older tree is unchanged.
    #[verifier::loop_isolation(false)]
    pub fn lift(&mut self, v: &ParamValue) -> (h: SharedParam)
        requires
            old(self).wf(),
        ensures
            final(self).wf(),
            old(self)@.len() <= final(self)@.len(),
            forall|i: int| 0 <= i < old(self)@.len() ==> final(self)@[i] == old(self)@[i],
            old(self)@.len() <= h.idx < final(self)@.len(),
            final(self).holds(h),
            tree_of(final(self)@, h.idx as int) == value_tree(*v),
            region_contained(final(self)@, old(self)@.len() as int, final(self)@.len() as int),
            forall|i: int|
                0 <= i < old(self)@.len() ==> tree_of(final(self)@, i) == tree_of(old(self)@, i),
        decreases v,
    {
        let ghost a0 = self@;
        let ghost n0 = self@.len() as int;
        match v {
            ParamValue::Bool(b) => {
                let h = self.new_bool(*b);
                proof {
                    lemma_tree_of_scalar(self@, h.idx as int);
                }
                h
            },
            ParamValue::I8(x) => {
                let h = self.new_i8(*x);
                proof {
                    lemma_tree_of_scalar(self@, h.idx as int);
                }
                h
            },
            ParamValue::U8(x) => {
                let h = self.new_u8(*x);
                proof {
                    lemma_tree_of_scalar(self@, h.idx as int);
                }
                h
            },
            ParamValue::I16(x) => {
                let h = self.new_i16(*x);
                proof {
                    lemma_tree_of_scalar(self@, h.idx as int);
                }
                h
            },
            ParamValue::U16(x) => {
                let h = self.new_u16(*x);
                proof {
                    lemma_tree_of_scalar(self@, h.idx as int);
                }
                h
            },
            ParamValue::I32(x) => {
                let h = self.new_i32(*x);
                proof {
                    lemma_tree_of_scalar(self@, h.idx as int);
                }
                h
            },
            ParamValue::U32(x) => {
                let h = self.new_u32(*x);
                proof {
                    lemma_tree_of_scalar(self@, h.idx as int);
                }
                h
            },
            ParamValue::FloatBits(x) => {
                let h = self.new_float_bits(*x);
                proof {
                    lemma_tree_of_scalar(self@, h.idx as int);
                }
                h
            },
            ParamValue::Hash(x) => {
                let h = self.new_hash(*x);
                proof {
                    lemma_tree_of_scalar(self@, h.idx as int);
                }
                h
            },
            ParamValue::Str(s) => {
                let h = self.new_str(s.clone());
                proof {
                    lemma_tree_of_scalar(self@, h.idx as int);
                }
                h
            },
            ParamValue::List(vs) => {
                let mut hs: Vec<SharedParam> = Vec::new();
                let mut k: usize = 0;
                while k < vs.len()
                    invariant
                        self.wf(),
                        k <= vs@.len(),
                        hs@.len() == k as int,
                        n0 <= self@.len(),
                        forall|i: int| 0 <= i < n0 ==> self@[i] == a0[i],
                        forall|m: int| 0 <= m < k ==> n0 <= (#[trigger] hs@[m]).idx < self@.len(),
                        forall|m: int|
                            0 <= m < k ==> tree_of(self@, (#[trigger] hs@[m]).idx as int)
                                == value_tree(vs@[m]),
                        region_contained(self@, n0, self@.len() as int),
                        forall|i: int| 0 <= i < n0 ==> tree_of(self@, i) == tree_of(a0, i),
                    decreases vs@.len() - k,
                {
                    proof {
                        assert(decreases_to!(*v => (*v)->List_0));
                        assert(decreases_to!((*v)->List_0 => (*v)->List_0@));
                        assert(decreases_to!((*v)->List_0@ => (*v)->List_0@[k as int]));
                        assert((*v)->List_0@[k as int] == vs@[k as int]);
                    }
                    let ghost ap = self@;
                    let hc = self.lift(&vs[k]);
                    hs.push(hc);
                    k += 1;
                    proof {
                        assert forall|j: int, kk: int|
                            n0 <= j < self@.len() && 0 <= kk < kids(self@[j]).len() implies n0
                            <= #[trigger] kids(self@[j])[kk] < self@.len() by {
                            if j < ap.len() {
                                assert(self@[j] == ap[j]);
                            }
                        }
                    }
                }
                let ghost ap2 = self@;
                let h = self.new_list(hs);
                proof {
                    let ghost cs = refs_of(hs@);
                    lemma_unfold_list(self@, h.idx as int);
                    assert forall|m: int| 0 <= m < vs@.len() implies tree_of(self@, cs[m])
                        == value_tree(vs@[m]) by {
                        assert(cs[m] == hs@[m].idx as int);
                        assert(tree_of(self@, hs@[m].idx as int) == tree_of(
                            ap2,
                            hs@[m].idx as int,
                        ));
                    }
                    lemma_values_trees_index(vs@);
                    assert(cs.map_values(|c: int| tree_of(self@, c)) =~= values_trees(vs@));
                    assert forall|j: int, kk: int|
                        n0 <= j < self@.len() && 0 <= kk < kids(self@[j]).len() implies n0
                        <= #[trigger] kids(self@[j])[kk] < self@.len() by {
                        if j < ap2.len() {
                            assert(self@[j] == ap2[j]);
                        } else {
                            assert(kids(self@[j])[kk] == cs[kk]);
                        }
                    }
                }
                h
            },
            ParamValue::Struct(vs) => {
                let mut hs: Vec<(crate::hash::HashKey, SharedParam)> = Vec::new();
                let mut k: usize = 0;
                while k < vs.len()
                    invariant
                        self.wf(),
                        k <= vs@.len(),
                        hs@.len() == k as int,
                        n0 <= self@.len(),
                        forall|i: int| 0 <= i < n0 ==> self@[i] == a0[i],
                        forall|m: int|
                            0 <= m < k ==> n0 <= (#[trigger] hs@[m]).1.idx < self@.len(),
                        forall|m: int|
                            0 <= m < k ==> (#[trigger] hs@[m]).0 == vs@[m].0 && tree_of(
                                self@,
                                hs@[m].1.idx as int,
                            ) == value_tree(vs@[m].1),
                        region_contained(self@, n0, self@.len() as int),
                        forall|i: int| 0 <= i < n0 ==> tree_of(self@, i) == tree_of(a0, i),
                    decreases vs@.len() - k,
                {
                    proof {
                        assert(decreases_to!(*v => (*v)->Struct_0));
                        assert(decreases_to!((*v)->Struct_0 => (*v)->Struct_0@));
                        assert(decreases_to!((*v)->Struct_0@ => (*v)->Struct_0@[k as int]));
                        assert(decreases_to!((*v)->Struct_0@[k as int] => (*v)->Struct_0@[
                            k as int
                        ].1));
                        assert((*v)->Struct_0@[k as int] == vs@[k as int]);
                    }
                    let ghost ap = self@;
                    let pk = vs[k].0;
                    let hc = self.lift(&vs[k].1);
                    hs.push((pk, hc));
                    k += 1;
                    proof {
                        assert forall|j: int, kk: int|
                            n0 <= j < self@.len() && 0 <= kk < kids(self@[j]).len() implies n0
                            <= #[trigger] kids(self@[j])[kk] < self@.len() by {
                            if j < ap.len() {
                                assert(self@[j] == ap[j]);
                            }
                        }
                    }
                }
                let ghost ap2 = self@;
                let h = self.new_struct(hs);
                proof {
                    let ghost ps = entries_of(hs@);
                    lemma_unfold_struct(self@, h.idx as int);
                    assert forall|m: int| 0 <= m < vs@.len() implies (
                    ps[m].0,
                    tree_of(self@, ps[m].1),
                    ) == (vs@[m].0.value, value_tree(vs@[m].1)) by {
                        assert(ps[m] == (hs@[m].0.value, hs@[m].1.idx as int));
                        assert(tree_of(self@, hs@[m].1.idx as int) == tree_of(
                            ap2,
                            hs@[m].1.idx as int,
                        ));
                    }
                    lemma_pairs_trees_index(vs@);
                    assert(ps.map_values(|p: (u64, int)| (p.0, tree_of(self@, p.1))) =~= pairs_trees(
                        vs@,
                    ));
                    assert forall|j: int, kk: int|
                        n0 <= j < self@.len() && 0 <= kk < kids(self@[j]).len() implies n0
                        <= #[trigger] kids(self@[j])[kk] < self@.len() by {
                        if j < ap2.len() {
                            assert(self@[j] == ap2[j]);
                        } else {
                            assert(kids(self@[j])[kk] == ps[kk].1);
                            assert(ps[kk] == (hs@[kk].0.value, hs@[kk].1.idx as int));
                        }
                    }
                }
                h
            },
        }
    }

    /// Recursively clones the whole subtree at `h` into freshly allocated,
    /// unaliased slots: the copy denotes the same tree, aliases nothing
    /// older, and leaves every older tree unchanged.
    pub fn deep_duplicate(&mut self, h: SharedParam) -> (r: SharedParam)
        requires
            old(self).wf(),
            old(self).holds(h),
        ensures
            final(self).wf(),
            old(self)@.len() <= final(self)@.len(),
            forall|i: int| 0 <= i < old(self)@.len() ==> final(self)@[i] == old(self)@[i],
            old(self)@.len() <= r.idx < final(self)@.len(),
            final(self).holds(r),
            tree_of(final(self)@, r.idx as int) == tree_of(old(self)@, h.idx as int),
            region_contained(final(self)@, old(self)@.len() as int, final(self)@.len() as int),
            forall|i: int|
                0 <= i < old(self)@.len() ==> tree_of(final(self)@, i) == tree_of(old(self)@, i),
    {
        let value = self.lower(h);
        self.lift(&value)
    }
}

} // verus!
