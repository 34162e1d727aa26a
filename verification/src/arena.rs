//! The shared-mutable param tree.
//!
//! Every node lives in one slot of a [`ParamArena`]; a [`SharedParam`] is a
//! handle naming a slot.  Handles alias freely: two handles with the same
//! slot index denote the same allocation, so a mutation through one is
//! observed through every other.  The contracts speak of the arena's view, a
//! sequence of [`NodeV`] slots, and of the unfolded subtree [`tree_of`] each
//! slot denotes.

use vstd::prelude::*;

use crate::errors::ParamError;
use crate::hash::HashKey;
use crate::tree::NodeV;
use crate::tree::Tree;
use crate::tree::has_tree;
use crate::tree::is_scalar;
use crate::tree::kids;
use crate::tree::lemma_tree_kind;
use crate::tree::lemma_tree_of_scalar;
use crate::tree::lemma_unfold_list;
use crate::tree::lemma_unfold_struct;
use crate::tree::lemma_wf_push;
use crate::tree::lemma_wf_region;
use crate::tree::lemma_wf_update_childless;
use crate::tree::tree_of;
use crate::tree::type_code;

verus! {

/// The stable variant code of Bool nodes.
pub const PARAM_TYPE_BOOL: u8 = 1;

/// The stable variant code of I8 nodes.
pub const PARAM_TYPE_I8: u8 = 2;

/// The stable variant code of U8 nodes.
pub const PARAM_TYPE_U8: u8 = 3;

/// The stable variant code of I16 nodes.
pub const PARAM_TYPE_I16: u8 = 4;

/// The stable variant code of U16 nodes.
pub const PARAM_TYPE_U16: u8 = 5;

/// The stable variant code of I32 nodes.
pub const PARAM_TYPE_I32: u8 = 6;

/// The stable variant code of U32 nodes.
pub const PARAM_TYPE_U32: u8 = 7;

/// The stable variant code of Float nodes.
pub const PARAM_TYPE_FLOAT: u8 = 8;

/// The stable variant code of Hash nodes.
pub const PARAM_TYPE_HASH: u8 = 9;

/// The stable variant code of Str nodes.
pub const PARAM_TYPE_STR: u8 = 10;

/// The stable variant code of List nodes.
pub const PARAM_TYPE_LIST: u8 = 11;

/// The stable variant code of Struct nodes.
pub const PARAM_TYPE_STRUCT: u8 = 12;

/// A handle to one mutably-shared node allocation.  Handles with equal
/// `idx` alias the same allocation.
#[derive(Clone, Copy, Debug, PartialEq, Eq, Structural)]
pub struct SharedParam {
    pub idx: usize,
}

impl SharedParam {
    /// Another handle to the same allocation: mutations through either one
    /// are observed through the other.
    pub fn alias(&self) -> (r: SharedParam)
        ensures
            r == *self,
    {
        SharedParam { idx: self.idx }
    }

    /// Whether two handles name the same allocation.
    pub fn is_alias_of(&self, other: &SharedParam) -> (r: bool)
        ensures
            r == (self.idx == other.idx),
    {
        self.idx == other.idx
    }
}

/// One tagged-union node.  The float variant stores the raw bit pattern of
/// its 32-bit payload; container variants hold handles, so their elements
/// are aliases, not copies.
pub enum ParamNode {
    Bool(bool),
    I8(i8),
    U8(u8),
    I16(i16),
    U16(u16),
    I32(i32),
    U32(u32),
    FloatBits(u32),
    Hash(HashKey),
    Str(String),
    List(Vec<SharedParam>),
    Struct(Vec<(HashKey, SharedParam)>),
}

/// The slot indices of a sequence of handles.
pub open spec fn refs_of(s: Seq<SharedParam>) -> Seq<int> {
    s.map_values(|p: SharedParam| p.idx as int)
}

/// The raw keys and slot indices of a sequence of keyed handles.
pub open spec fn entries_of(s: Seq<(HashKey, SharedParam)>) -> Seq<(u64, int)> {
    s.map_values(|p: (HashKey, SharedParam)| (p.0.value, p.1.idx as int))
}

impl View for ParamNode {
    type V = NodeV;

    open spec fn view(&self) -> NodeV {
        match self {
            ParamNode::Bool(v) => NodeV::Bool(*v),
            ParamNode::I8(v) => NodeV::I8(*v),
            ParamNode::U8(v) => NodeV::U8(*v),
            ParamNode::I16(v) => NodeV::I16(*v),
            ParamNode::U16(v) => NodeV::U16(*v),
            ParamNode::I32(v) => NodeV::I32(*v),
            ParamNode::U32(v) => NodeV::U32(*v),
            ParamNode::FloatBits(v) => NodeV::FloatBits(*v),
            ParamNode::Hash(v) => NodeV::Hash(v.value),
            ParamNode::Str(v) => NodeV::Str(v@),
            ParamNode::List(v) => NodeV::List(refs_of(v@)),
            ParamNode::Struct(v) => NodeV::Struct(entries_of(v@)),
        }
    }
}

/// The payload of a non-container node, as a plain value.  Its view is the
/// node it denotes, which is never a container.
pub enum ScalarValue {
    Bool(bool),
    I8(i8),
    U8(u8),
    I16(i16),
    U16(u16),
    I32(i32),
    U32(u32),
    FloatBits(u32),
    Hash(HashKey),
    Str(String),
}

impl View for ScalarValue {
    type V = NodeV;

    open spec fn view(&self) -> NodeV {
        match self {
            ScalarValue::Bool(v) => NodeV::Bool(*v),
            ScalarValue::I8(v) => NodeV::I8(*v),
            ScalarValue::U8(v) => NodeV::U8(*v),
            ScalarValue::I16(v) => NodeV::I16(*v),
            ScalarValue::U16(v) => NodeV::U16(*v),
            ScalarValue::I32(v) => NodeV::I32(*v),
            ScalarValue::U32(v) => NodeV::U32(*v),
            ScalarValue::FloatBits(v) => NodeV::FloatBits(*v),
            ScalarValue::Hash(v) => NodeV::Hash(v.value),
            ScalarValue::Str(v) => NodeV::Str(v@),
        }
    }
}

/// The arena holding every node of every tree.  Slots are never reused, so
/// a handle stays valid for the arena's lifetime.
pub struct ParamArena {
    nodes: Vec<ParamNode>,
}

impl View for ParamArena {
    type V = Seq<NodeV>;

    closed spec fn view(&self) -> Seq<NodeV> {
        self.nodes@.map_values(|n: ParamNode| n@)
    }
}

impl ParamArena {
    /// Whether a handle names a slot of this arena.
    pub open spec fn holds(&self, h: SharedParam) -> bool {
        h.idx < self@.len()
    }

    /// The node a handle currently denotes.
    pub open spec fn node(&self, h: SharedParam) -> NodeV {
        self@[h.idx as int]
    }

    /// The unfolded subtree a handle currently denotes.
    pub open spec fn tree(&self, h: SharedParam) -> Tree {
        tree_of(self@, h.idx as int)
    }

    /// Every slot of the arena unfolds to a finite tree.
    pub open spec fn wf(&self) -> bool {
        crate::tree::wf(self@)
    }

    /// Whether a handle names a slot of this arena, decided at run time.
    pub fn contains(&self, h: SharedParam) -> (r: bool)
        ensures
            r == self.holds(h),
    {
        h.idx < self.nodes.len()
    }

    /// An empty arena.
    pub fn new() -> (r: ParamArena)
        ensures
            r.wf(),
            r@.len() == 0,
    {
        ParamArena { nodes: Vec::new() }
    }

    /// Appends a node whose children (if any) are existing slots; the new
    /// handle is fresh and every existing tree is unchanged.
    fn push_node(&mut self, n: ParamNode) -> (h: SharedParam)
        requires
            old(self).wf(),
            forall|k: int| 0 <= k < kids(n@).len() ==> 0 <= #[trigger] kids(n@)[k] < old(self)@.len(),
        ensures
            final(self).wf(),
            final(self)@ == old(self)@.push(n@),
            h.idx == old(self)@.len(),
            final(self).holds(h),
            has_tree(final(self)@, h.idx as int),
            forall|i: int|
                0 <= i < old(self)@.len() ==> tree_of(final(self)@, i) == tree_of(old(self)@, i),
    {
        let ghost a = self@;
        let h = SharedParam { idx: self.nodes.len() };
        self.nodes.push(n);
        proof {
            assert(self@ =~= a.push(n@));
            lemma_wf_push(a, n@);
        }
        h
    }

    /// Wraps a fresh Bool node.
    pub fn new_bool(&mut self, value: bool) -> (h: SharedParam)
        requires
            old(self).wf(),
        ensures
            final(self).wf(),
            final(self)@ == old(self)@.push(NodeV::Bool(value)),
            h.idx == old(self)@.len(),
            forall|i: int|
                0 <= i < old(self)@.len() ==> tree_of(final(self)@, i) == tree_of(old(self)@, i),
    {
        self.push_node(ParamNode::Bool(value))
    }

    /// Wraps a fresh I8 node.
    pub fn new_i8(&mut self, value: i8) -> (h: SharedParam)
        requires
            old(self).wf(),
        ensures
            final(self).wf(),
            final(self)@ == old(self)@.push(NodeV::I8(value)),
            h.idx == old(self)@.len(),
            forall|i: int|
                0 <= i < old(self)@.len() ==> tree_of(final(self)@, i) == tree_of(old(self)@, i),
    {
        self.push_node(ParamNode::I8(value))
    }

    /// Wraps a fresh U8 node.
    pub fn new_u8(&mut self, value: u8) -> (h: SharedParam)
        requires
            old(self).wf(),
        ensures
            final(self).wf(),
            final(self)@ == old(self)@.push(NodeV::U8(value)),
            h.idx == old(self)@.len(),
            forall|i: int|
                0 <= i < old(self)@.len() ==> tree_of(final(self)@, i) == tree_of(old(self)@, i),
    {
        self.push_node(ParamNode::U8(value))
    }

    /// Wraps a fresh I16 node.
    pub fn new_i16(&mut self, value: i16) -> (h: SharedParam)
        requires
            old(self).wf(),
        ensures
            final(self).wf(),
            final(self)@ == old(self)@.push(NodeV::I16(value)),
            h.idx == old(self)@.len(),
            forall|i: int|
                0 <= i < old(self)@.len() ==> tree_of(final(self)@, i) == tree_of(old(self)@, i),
    {
        self.push_node(ParamNode::I16(value))
    }

    /// Wraps a fresh U16 node.
    pub fn new_u16(&mut self, value: u16) -> (h: SharedParam)
        requires
            old(self).wf(),
        ensures
            final(self).wf(),
            final(self)@ == old(self)@.push(NodeV::U16(value)),
            h.idx == old(self)@.len(),
            forall|i: int|
                0 <= i < old(self)@.len() ==> tree_of(final(self)@, i) == tree_of(old(self)@, i),
    {
        self.push_node(ParamNode::U16(value))
    }

    /// Wraps a fresh I32 node.
    pub fn new_i32(&mut self, value: i32) -> (h: SharedParam)
        requires
            old(self).wf(),
        ensures
            final(self).wf(),
            final(self)@ == old(self)@.push(NodeV::I32(value)),
            h.idx == old(self)@.len(),
            forall|i: int|
                0 <= i < old(self)@.len() ==> tree_of(final(self)@, i) == tree_of(old(self)@, i),
    {
        self.push_node(ParamNode::I32(value))
    }

    /// Wraps a fresh U32 node.
    pub fn new_u32(&mut self, value: u32) -> (h: SharedParam)
        requires
            old(self).wf(),
        ensures
            final(self).wf(),
            final(self)@ == old(self)@.push(NodeV::U32(value)),
            h.idx == old(self)@.len(),
            forall|i: int|
                0 <= i < old(self)@.len() ==> tree_of(final(self)@, i) == tree_of(old(self)@, i),
    {
        self.push_node(ParamNode::U32(value))
    }

    /// Wraps a fresh Float node, given the raw bit pattern of its payload.
    pub fn new_float_bits(&mut self, bits: u32) -> (h: SharedParam)
        requires
            old(self).wf(),
        ensures
            final(self).wf(),
            final(self)@ == old(self)@.push(NodeV::FloatBits(bits)),
            h.idx == old(self)@.len(),
            forall|i: int|
                0 <= i < old(self)@.len() ==> tree_of(final(self)@, i) == tree_of(old(self)@, i),
    {
        self.push_node(ParamNode::FloatBits(bits))
    }

    /// Wraps a fresh Hash node.
    pub fn new_hash(&mut self, value: HashKey) -> (h: SharedParam)
        requires
            old(self).wf(),
        ensures
            final(self).wf(),
            final(self)@ == old(self)@.push(NodeV::Hash(value.value)),
            h.idx == old(self)@.len(),
            forall|i: int|
                0 <= i < old(self)@.len() ==> tree_of(final(self)@, i) == tree_of(old(self)@, i),
    {
        self.push_node(ParamNode::Hash(value))
    }

    /// Wraps a fresh Str node.
    pub fn new_str(&mut self, value: String) -> (h: SharedParam)
        requires
            old(self).wf(),
        ensures
            final(self).wf(),
            final(self)@ == old(self)@.push(NodeV::Str(value@)),
            h.idx == old(self)@.len(),
            forall|i: int|
                0 <= i < old(self)@.len() ==> tree_of(final(self)@, i) == tree_of(old(self)@, i),
    {
        self.push_node(ParamNode::Str(value))
    }

    /// Wraps a fresh List node whose elements are the handles passed in
    /// (aliases, not copies).
    pub fn new_list(&mut self, children: Vec<SharedParam>) -> (h: SharedParam)
        requires
            old(self).wf(),
            forall|k: int|
                0 <= k < children@.len() ==> (#[trigger] children@[k]).idx < old(self)@.len(),
        ensures
            final(self).wf(),
            final(self)@ == old(self)@.push(NodeV::List(refs_of(children@))),
            h.idx == old(self)@.len(),
            forall|i: int|
                0 <= i < old(self)@.len() ==> tree_of(final(self)@, i) == tree_of(old(self)@, i),
    {
        let ghost cv = children@;
        let n = ParamNode::List(children);
        proof {
            assert(kids(n@) == refs_of(cv));
            assert forall|k: int| 0 <= k < kids(n@).len() implies 0 <= #[trigger] kids(n@)[k]
                < old(self)@.len() by {
                assert(kids(n@)[k] == cv[k].idx as int);
            }
        }
        self.push_node(n)
    }

    /// Wraps a fresh Struct node, preserving entry order and duplicate keys;
    /// the entry values are the handles passed in (aliases, not copies).
    pub fn new_struct(&mut self, entries: Vec<(HashKey, SharedParam)>) -> (h: SharedParam)
        requires
            old(self).wf(),
            forall|k: int|
                0 <= k < entries@.len() ==> (#[trigger] entries@[k]).1.idx < old(self)@.len(),
        ensures
            final(self).wf(),
            final(self)@ == old(self)@.push(NodeV::Struct(entries_of(entries@))),
            h.idx == old(self)@.len(),
            forall|i: int|
                0 <= i < old(self)@.len() ==> tree_of(final(self)@, i) == tree_of(old(self)@, i),
    {
        let ghost ev = entries@;
        let n = ParamNode::Struct(entries);
        proof {
            assert forall|k: int| 0 <= k < kids(n@).len() implies 0 <= #[trigger] kids(n@)[k]
                < old(self)@.len() by {
                assert(kids(n@)[k] == entries_of(ev)[k].1);
                assert(entries_of(ev)[k] == (ev[k].0.value, ev[k].1.idx as int));
            }
        }
        self.push_node(n)
    }

    /// The variant tag of the node, as its stable integer code.
    pub fn get_type(&self, h: SharedParam) -> (r: u8)
        requires
            self.holds(h),
        ensures
            r == type_code(self.node(h)),
    {
        node_code(&self.nodes[h.idx])
    }

    /// The scalar payload of a non-container node; `TypeKind` on List and
    /// Struct nodes.
    pub fn get_scalar_value(&self, h: SharedParam) -> (r: Result<ScalarValue, ParamError>)
        requires
            self.holds(h),
        ensures
            is_scalar(self.node(h)) ==> (r matches Ok(v) && v@ == self.node(h)),
            !is_scalar(self.node(h)) ==> r == Err::<ScalarValue, ParamError>(ParamError::TypeKind),
    {
        match &self.nodes[h.idx] {
            ParamNode::Bool(v) => Ok(ScalarValue::Bool(*v)),
            ParamNode::I8(v) => Ok(ScalarValue::I8(*v)),
            ParamNode::U8(v) => Ok(ScalarValue::U8(*v)),
            ParamNode::I16(v) => Ok(ScalarValue::I16(*v)),
            ParamNode::U16(v) => Ok(ScalarValue::U16(*v)),
            ParamNode::I32(v) => Ok(ScalarValue::I32(*v)),
            ParamNode::U32(v) => Ok(ScalarValue::U32(*v)),
            ParamNode::FloatBits(v) => Ok(ScalarValue::FloatBits(*v)),
            ParamNode::Hash(v) => Ok(ScalarValue::Hash(*v)),
            ParamNode::Str(v) => Ok(ScalarValue::Str(v.clone())),
            ParamNode::List(_) => Err(ParamError::TypeKind),
            ParamNode::Struct(_) => Err(ParamError::TypeKind),
        }
    }

    /// Replaces the payload in place when the node's variant matches the
    /// value's kind; `TypeKind` otherwise (in particular on containers).
    pub fn set_scalar_value(&mut self, h: SharedParam, value: ScalarValue) -> (r: Result<
        (),
        ParamError,
    >)
        requires
            old(self).wf(),
            old(self).holds(h),
        ensures
            final(self).wf(),
            type_code(old(self).node(h)) == type_code(value@) ==> r is Ok && final(self)@ == old(
                self,
            )@.update(h.idx as int, value@),
            type_code(old(self).node(h)) != type_code(value@) ==> r == Err::<(), ParamError>(
                ParamError::TypeKind,
            ) && final(self)@ == old(self)@,
    {
        let ghost a = self@;
        let code = node_code(&self.nodes[h.idx]);
        let vcode = scalar_code(&value);
        if code == vcode {
            let n = scalar_to_node(value);
            self.nodes.set(h.idx, n);
            proof {
                assert(self@ =~= a.update(h.idx as int, n@));
                assert(kids(n@).len() == 0);
                lemma_wf_update_childless(a, h.idx as int, n@);
            }
            Ok(())
        } else {
            proof {
                assert(self@ =~= a);
            }
            Err(ParamError::TypeKind)
        }
    }

    /// The number of children of a List or Struct node; `TypeKind` on
    /// scalar nodes.
    pub fn length(&self, h: SharedParam) -> (r: Result<usize, ParamError>)
        requires
            self.holds(h),
        ensures
            self.node(h) matches NodeV::List(cs) ==> (r matches Ok(l) && l == cs.len()),
            self.node(h) matches NodeV::Struct(ps) ==> (r matches Ok(l) && l == ps.len()),
            is_scalar(self.node(h)) ==> r == Err::<usize, ParamError>(ParamError::TypeKind),
    {
        match &self.nodes[h.idx] {
            ParamNode::List(v) => Ok(v.len()),
            ParamNode::Struct(v) => Ok(v.len()),
            _ => Err(ParamError::TypeKind),
        }
    }
}

/// The result of a keyed struct lookup: the single match, or the whole
/// matching collection when the key is ambiguous.
pub enum StructLookup {
    One(SharedParam),
    Many(Vec<SharedParam>),
}

/// The child slots of the entries of `ps` whose key equals `key`, in entry
/// order.
pub open spec fn struct_matches(ps: Seq<(u64, int)>, key: u64) -> Seq<int>
    decreases ps.len(),
{
    if ps.len() == 0 {
        Seq::empty()
    } else {
        let rest = struct_matches(ps.drop_last(), key);
        if ps.last().0 == key {
            rest.push(ps.last().1)
        } else {
            rest
        }
    }
}

/// The positions of the entries of `ps` whose key equals `key`, ascending.
pub open spec fn match_positions(ps: Seq<(u64, int)>, key: u64) -> Seq<int>
    decreases ps.len(),
{
    if ps.len() == 0 {
        Seq::empty()
    } else {
        let rest = match_positions(ps.drop_last(), key);
        if ps.last().0 == key {
            rest.push(ps.len() - 1)
        } else {
            rest
        }
    }
}

/// Every match position is a valid entry position, carries the looked-up
/// key, and its entry's child slot is the corresponding match.
pub proof fn lemma_match_positions(ps: Seq<(u64, int)>, key: u64)
    ensures
        match_positions(ps, key).len() == struct_matches(ps, key).len(),
        forall|j: int|
            0 <= j < match_positions(ps, key).len() ==> 0 <= #[trigger] match_positions(
                ps,
                key,
            )[j] < ps.len() && ps[match_positions(ps, key)[j]].0 == key && ps[match_positions(
                ps,
                key,
            )[j]].1 == struct_matches(ps, key)[j],
    decreases ps.len(),
{
    if ps.len() > 0 {
        lemma_match_positions(ps.drop_last(), key);
        assert forall|j: int| 0 <= j < match_positions(ps.drop_last(), key).len() implies ps[
            match_positions(ps.drop_last(), key)[j]
        ] == ps.drop_last()[match_positions(ps.drop_last(), key)[j]] by {}
    }
}

impl ParamArena {
    /// Replaces a node wholesale with a childless one.
    fn set_childless(&mut self, h: SharedParam, n: ParamNode)
        requires
            old(self).wf(),
            old(self).holds(h),
            kids(n@).len() == 0,
        ensures
            final(self).wf(),
            final(self)@ == old(self)@.update(h.idx as int, n@),
    {
        let ghost a = self@;
        self.nodes.set(h.idx, n);
        proof {
            assert(self@ =~= a.update(h.idx as int, n@));
            lemma_wf_update_childless(a, h.idx as int, n@);
        }
    }

    /// Replaces the node wholesale with a Bool node.
    pub fn set_bool(&mut self, h: SharedParam, value: bool)
        requires
            old(self).wf(),
            old(self).holds(h),
        ensures
            final(self).wf(),
            final(self)@ == old(self)@.update(h.idx as int, NodeV::Bool(value)),
    {
        self.set_childless(h, ParamNode::Bool(value))
    }

    /// Replaces the node wholesale with an I8 node.
    pub fn set_i8(&mut self, h: SharedParam, value: i8)
        requires
            old(self).wf(),
            old(self).holds(h),
        ensures
            final(self).wf(),
            final(self)@ == old(self)@.update(h.idx as int, NodeV::I8(value)),
    {
        self.set_childless(h, ParamNode::I8(value))
    }

    /// Replaces the node wholesale with a U8 node.
    pub fn set_u8(&mut self, h: SharedParam, value: u8)
        requires
            old(self).wf(),
            old(self).holds(h),
        ensures
            final(self).wf(),
            final(self)@ == old(self)@.update(h.idx as int, NodeV::U8(value)),
    {
        self.set_childless(h, ParamNode::U8(value))
    }

    /// Replaces the node wholesale with an I16 node.
    pub fn set_i16(&mut self, h: SharedParam, value: i16)
        requires
            old(self).wf(),
            old(self).holds(h),
        ensures
            final(self).wf(),
            final(self)@ == old(self)@.update(h.idx as int, NodeV::I16(value)),
    {
        self.set_childless(h, ParamNode::I16(value))
    }

    /// Replaces the node wholesale with a U16 node.
    pub fn set_u16(&mut self, h: SharedParam, value: u16)
        requires
            old(self).wf(),
            old(self).holds(h),
        ensures
            final(self).wf(),
            final(self)@ == old(self)@.update(h.idx as int, NodeV::U16(value)),
    {
        self.set_childless(h, ParamNode::U16(value))
    }

    /// Replaces the node wholesale with an I32 node.
    pub fn set_i32(&mut self, h: SharedParam, value: i32)
        requires
            old(self).wf(),
            old(self).holds(h),
        ensures
            final(self).wf(),
            final(self)@ == old(self)@.update(h.idx as int, NodeV::I32(value)),
    {
        self.set_childless(h, ParamNode::I32(value))
    }

    /// Replaces the node wholesale with a U32 node.
    pub fn set_u32(&mut self, h: SharedParam, value: u32)
        requires
            old(self).wf(),
            old(self).holds(h),
        ensures
            final(self).wf(),
            final(self)@ == old(self)@.update(h.idx as int, NodeV::U32(value)),
    {
        self.set_childless(h, ParamNode::U32(value))
    }

    /// Replaces the node wholesale with a Float node, given the payload's
    /// raw bit pattern.
    pub fn set_float_bits(&mut self, h: SharedParam, bits: u32)
        requires
            old(self).wf(),
            old(self).holds(h),
        ensures
            final(self).wf(),
            final(self)@ == old(self)@.update(h.idx as int, NodeV::FloatBits(bits)),
    {
        self.set_childless(h, ParamNode::FloatBits(bits))
    }

    /// Replaces the node wholesale with a Hash node.
    pub fn set_hash(&mut self, h: SharedParam, value: HashKey)
        requires
            old(self).wf(),
            old(self).holds(h),
        ensures
            final(self).wf(),
            final(self)@ == old(self)@.update(h.idx as int, NodeV::Hash(value.value)),
    {
        self.set_childless(h, ParamNode::Hash(value))
    }

    /// Replaces the node wholesale with a Str node.
    pub fn set_str(&mut self, h: SharedParam, value: String)
        requires
            old(self).wf(),
            old(self).holds(h),
        ensures
            final(self).wf(),
            final(self)@ == old(self)@.update(h.idx as int, NodeV::Str(value@)),
    {
        self.set_childless(h, ParamNode::Str(value))
    }

    /// Replaces the node wholesale with a List node whose elements are the
    /// handles passed in.  The caller must not tie a cycle: the arena with
    /// the slot so replaced must still be well formed.
    pub fn set_list(&mut self, h: SharedParam, children: Vec<SharedParam>)
        requires
            old(self).wf(),
            old(self).holds(h),
            crate::tree::wf(
                old(self)@.update(h.idx as int, NodeV::List(refs_of(children@))),
            ),
        ensures
            final(self).wf(),
            final(self)@ == old(self)@.update(h.idx as int, NodeV::List(refs_of(children@))),
    {
        let ghost a = self@;
        let ghost nn = NodeV::List(refs_of(children@));
        self.nodes.set(h.idx, ParamNode::List(children));
        proof {
            assert(self@ =~= a.update(h.idx as int, nn));
        }
    }

    /// Replaces the node wholesale with a Struct node built from the keyed
    /// handles passed in.  The caller must not tie a cycle: the arena with
    /// the slot so replaced must still be well formed.
    pub fn set_struct(&mut self, h: SharedParam, entries: Vec<(HashKey, SharedParam)>)
        requires
            old(self).wf(),
            old(self).holds(h),
            crate::tree::wf(
                old(self)@.update(h.idx as int, NodeV::Struct(entries_of(entries@))),
            ),
        ensures
            final(self).wf(),
            final(self)@ == old(self)@.update(h.idx as int, NodeV::Struct(entries_of(entries@))),
    {
        let ghost a = self@;
        let ghost nn = NodeV::Struct(entries_of(entries@));
        self.nodes.set(h.idx, ParamNode::Struct(entries));
        proof {
            assert(self@ =~= a.update(h.idx as int, nn));
        }
    }

    /// An alias to the list element at `index` (not a copy: mutating
    /// through the result mutates the list element in place).
    #[verifier::loop_isolation(false)]
    pub fn list_get(&self, h: SharedParam, index: usize) -> (r: Result<SharedParam, ParamError>)
        requires
            self.wf(),
            self.holds(h),
        ensures
            self.node(h) matches NodeV::List(cs) ==> (index < cs.len() ==> (r matches Ok(e)
                && e.idx as int == cs[index as int] && self.holds(e))),
            self.node(h) matches NodeV::List(cs) ==> (index >= cs.len() ==> r == Err::<
                SharedParam,
                ParamError,
            >(ParamError::IndexOutOfRange)),
            !(self.node(h) is List) ==> r == Err::<SharedParam, ParamError>(ParamError::TypeKind),
    {
        match &self.nodes[h.idx] {
            ParamNode::List(v) => {
                if index < v.len() {
                    let e = v[index];
                    proof {
                        lemma_wf_region(self@);
                        assert(kids(self.node(h))[index as int] == e.idx as int);
                    }
                    Ok(e)
                } else {
                    Err(ParamError::IndexOutOfRange)
                }
            },
            _ => Err(ParamError::TypeKind),
        }
    }

    /// Replaces the list element at `index` with the supplied handle.  The
    /// caller must not tie a cycle: the arena with the slot so replaced
    /// must still be well formed.
    #[verifier::loop_isolation(false)]
    pub fn list_set(&mut self, h: SharedParam, index: usize, value: SharedParam) -> (r: Result<
        (),
        ParamError,
    >)
        requires
            old(self).wf(),
            old(self).holds(h),
            old(self).holds(value),
            old(self).node(h) matches NodeV::List(cs) ==> (index < cs.len()
                ==> crate::tree::wf(
                old(self)@.update(
                    h.idx as int,
                    NodeV::List(cs.update(index as int, value.idx as int)),
                ),
            )),
        ensures
            final(self).wf(),
            old(self).node(h) matches NodeV::List(cs) ==> (index < cs.len() ==> (r is Ok
                && final(self)@ == old(self)@.update(
                h.idx as int,
                NodeV::List(cs.update(index as int, value.idx as int)),
            ))),
            old(self).node(h) matches NodeV::List(cs) ==> (index >= cs.len() ==> (r == Err::<
                (),
                ParamError,
            >(ParamError::IndexOutOfRange) && final(self)@ == old(self)@)),
            !(old(self).node(h) is List) ==> (r == Err::<(), ParamError>(ParamError::TypeKind)
                && final(self)@ == old(self)@),
    {
        let ghost a = self@;
        let outcome: Result<ParamNode, ParamError> = match &self.nodes[h.idx] {
            ParamNode::List(v) => {
                if index < v.len() {
                    let nv = vec_update_copy(v, index, value);
                    proof {
                        assert(a[h.idx as int] == NodeV::List(refs_of(v@)));
                        assert(refs_of(nv@) =~= refs_of(v@).update(
                            index as int,
                            value.idx as int,
                        ));
                    }
                    Ok(ParamNode::List(nv))
                } else {
                    Err(ParamError::IndexOutOfRange)
                }
            },
            _ => Err(ParamError::TypeKind),
        };
        match outcome {
            Ok(n) => {
                proof {
                    assert(a[h.idx as int] matches NodeV::List(cs) && n@ == NodeV::List(
                        cs.update(index as int, value.idx as int),
                    ));
                }
                self.nodes.set(h.idx, n);
                proof {
                    assert(self@ =~= a.update(h.idx as int, n@));
                }
                Ok(())
            },
            Err(e) => {
                proof {
                    assert(self@ =~= a);
                }
                Err(e)
            },
        }
    }
    /// A borrow of the node a handle denotes, for the crate's own readers.
    pub(crate) fn node_ref(&self, h: SharedParam) -> (r: &ParamNode)
        requires
            self.holds(h),
        ensures
            r@ == self.node(h),
    {
        &self.nodes[h.idx]
    }

    /// Whether two handles denote structurally equal trees.  Handles that
    /// alias the same allocation are equal without inspecting contents —
    /// the identity fast path that keeps self-comparison from descending
    /// into the very node being compared — and the same fast path is taken
    /// at every depth of the recursion.
    pub fn param_eq(&self, x: SharedParam, y: SharedParam) -> (r: bool)
        requires
            self.wf(),
            self.holds(x),
            self.holds(y),
        ensures
            r == (self.tree(x) == self.tree(y)),
    {
        self.eq_at(x.idx, y.idx)
    }

    /// Structural equality of the subtrees rooted at two slots.
    #[verifier::loop_isolation(false)]
    fn eq_at(&self, i: usize, j: usize) -> (r: bool)
        requires
            self.wf(),
            i < self@.len(),
            j < self@.len(),
        ensures
            r == (tree_of(self@, i as int) == tree_of(self@, j as int)),
        decreases tree_of(self@, i as int),
    {
        proof {
            assert(has_tree(self@, i as int));
            assert(has_tree(self@, j as int));
        }
        if i == j {
            return true;
        }
        let code_i = node_code(&self.nodes[i]);
        let code_j = node_code(&self.nodes[j]);
        if code_i != code_j {
            proof {
                lemma_tree_kind(self@, i as int);
                lemma_tree_kind(self@, j as int);
            }
            return false;
        }
        let ghost ta = tree_of(self@, i as int);
        let ghost tb = tree_of(self@, j as int);
        match (&self.nodes[i], &self.nodes[j]) {
            (ParamNode::Bool(x), ParamNode::Bool(y)) => {
                proof {
                    lemma_tree_of_scalar(self@, i as int);
                    lemma_tree_of_scalar(self@, j as int);
                }
                *x == *y
            },
            (ParamNode::I8(x), ParamNode::I8(y)) => {
                proof {
                    lemma_tree_of_scalar(self@, i as int);
                    lemma_tree_of_scalar(self@, j as int);
                }
                *x == *y
            },
            (ParamNode::U8(x), ParamNode::U8(y)) => {
                proof {
                    lemma_tree_of_scalar(self@, i as int);
                    lemma_tree_of_scalar(self@, j as int);
                }
                *x == *y
            },
            (ParamNode::I16(x), ParamNode::I16(y)) => {
                proof {
                    lemma_tree_of_scalar(self@, i as int);
                    lemma_tree_of_scalar(self@, j as int);
                }
                *x == *y
            },
            (ParamNode::U16(x), ParamNode::U16(y)) => {
                proof {
                    lemma_tree_of_scalar(self@, i as int);
                    lemma_tree_of_scalar(self@, j as int);
                }
                *x == *y
            },
            (ParamNode::I32(x), ParamNode::I32(y)) => {
                proof {
                    lemma_tree_of_scalar(self@, i as int);
                    lemma_tree_of_scalar(self@, j as int);
                }
                *x == *y
            },
            (ParamNode::U32(x), ParamNode::U32(y)) => {
                proof {
                    lemma_tree_of_scalar(self@, i as int);
                    lemma_tree_of_scalar(self@, j as int);
                }
                *x == *y
            },
            (ParamNode::FloatBits(x), ParamNode::FloatBits(y)) => {
                proof {
                    lemma_tree_of_scalar(self@, i as int);
                    lemma_tree_of_scalar(self@, j as int);
                }
                *x == *y
            },
            (ParamNode::Hash(x), ParamNode::Hash(y)) => {
                proof {
                    lemma_tree_of_scalar(self@, i as int);
                    lemma_tree_of_scalar(self@, j as int);
                }
                x.value == y.value
            },
            (ParamNode::Str(x), ParamNode::Str(y)) => {
                proof {
                    lemma_tree_of_scalar(self@, i as int);
                    lemma_tree_of_scalar(self@, j as int);
                }
                x.eq(y)
            },
            (ParamNode::List(va), ParamNode::List(vb)) => {
                proof {
                    lemma_unfold_list(self@, i as int);
                    lemma_unfold_list(self@, j as int);
                    lemma_wf_region(self@);
                    assert(self@[i as int] == NodeV::List(refs_of(va@)));
                    assert(self@[j as int] == NodeV::List(refs_of(vb@)));
                    assert(ta->List_0.len() == va@.len());
                    assert(tb->List_0.len() == vb@.len());
                }
                if va.len() != vb.len() {
                    return false;
                }
                let mut k: usize = 0;
                while k < va.len()
                    invariant
                        k <= va@.len(),
                        forall|m: int|
                            0 <= m < k ==> tree_of(self@, #[trigger] refs_of(va@)[m]) == tree_of(
                                self@,
                                refs_of(vb@)[m],
                            ),
                    decreases va@.len() - k,
                {
                    let ea = va[k];
                    let eb = vb[k];
                    proof {
                        assert(kids(self@[i as int])[k as int] == ea.idx as int);
                        assert(kids(self@[j as int])[k as int] == eb.idx as int);
                        assert(tree_of(self@, ea.idx as int) == ta->List_0[k as int]);
                        assert(tree_of(self@, eb.idx as int) == tb->List_0[k as int]);
                        assert(decreases_to!(ta => ta->List_0));
                        assert(decreases_to!(ta->List_0 => ta->List_0[k as int]));
                    }
                    if !self.eq_at(ea.idx, eb.idx) {
                        proof {
                            assert(ta->List_0[k as int] != tb->List_0[k as int]);
                        }
                        return false;
                    }
                    k += 1;
                }
                proof {
                    assert(ta->List_0 =~= tb->List_0);
                }
                true
            },
            (ParamNode::Struct(va), ParamNode::Struct(vb)) => {
                proof {
                    lemma_unfold_struct(self@, i as int);
                    lemma_unfold_struct(self@, j as int);
                    lemma_wf_region(self@);
                    assert(self@[i as int] == NodeV::Struct(entries_of(va@)));
                    assert(self@[j as int] == NodeV::Struct(entries_of(vb@)));
                    assert(ta->Struct_0.len() == va@.len());
                    assert(tb->Struct_0.len() == vb@.len());
                }
                if va.len() != vb.len() {
                    return false;
                }
                let mut k: usize = 0;
                while k < va.len()
                    invariant
                        k <= va@.len(),
                        forall|m: int|
                            0 <= m < k ==> #[trigger] ta->Struct_0[m] == tb->Struct_0[m],
                    decreases va@.len() - k,
                {
                    let pa = va[k];
                    let pb = vb[k];
                    proof {
                        assert(kids(self@[i as int])[k as int] == pa.1.idx as int);
                        assert(kids(self@[j as int])[k as int] == pb.1.idx as int);
                        assert(ta->Struct_0[k as int] == (
                            pa.0.value,
                            tree_of(self@, pa.1.idx as int),
                        ));
                        assert(tb->Struct_0[k as int] == (
                            pb.0.value,
                            tree_of(self@, pb.1.idx as int),
                        ));
                        assert(decreases_to!(ta => ta->Struct_0));
                        assert(decreases_to!(ta->Struct_0 => ta->Struct_0[k as int]));
                        assert(decreases_to!(ta->Struct_0[k as int] => ta->Struct_0[
                            k as int
                        ].1));
                    }
                    if pa.0.value != pb.0.value {
                        return false;
                    }
                    if !self.eq_at(pa.1.idx, pb.1.idx) {
                        return false;
                    }
                    k += 1;
                }
                proof {
                    assert(ta->Struct_0 =~= tb->Struct_0);
                }
                true
            },
            _ => {
                proof {
                    assert(false);
                }
                false
            },
        }
    }

    /// The aliases of the struct entries matching `key`: the single match
    /// when the key is unambiguous, the whole matching collection when more
    /// than one entry matches; `KeyNotFound` when nothing matches.
    #[verifier::loop_isolation(false)]
    pub fn struct_get(&self, h: SharedParam, key: HashKey) -> (r: Result<StructLookup, ParamError>)
        requires
            self.wf(),
            self.holds(h),
        ensures
            self.node(h) matches NodeV::Struct(ps) ==> (struct_matches(ps, key.value).len() == 0
                ==> r == Err::<StructLookup, ParamError>(ParamError::KeyNotFound)),
            self.node(h) matches NodeV::Struct(ps) ==> (struct_matches(ps, key.value).len() == 1
                ==> (r matches Ok(StructLookup::One(e)) && e.idx as int == struct_matches(
                ps,
                key.value,
            )[0] && self.holds(e))),
            self.node(h) matches NodeV::Struct(ps) ==> (struct_matches(ps, key.value).len() >= 2
                ==> (r matches Ok(StructLookup::Many(es)) && refs_of(es@) == struct_matches(
                ps,
                key.value,
            ) && forall|j: int| 0 <= j < es@.len() ==> self.holds(#[trigger] es@[j]))),
            !(self.node(h) is Struct) ==> r == Err::<StructLookup, ParamError>(
                ParamError::TypeKind,
            ),
    {
        match &self.nodes[h.idx] {
            ParamNode::Struct(v) => {
                proof {
                    lemma_wf_region(self@);
                    assert(self.node(h) == NodeV::Struct(entries_of(v@)));
                }
                let ghost ps = entries_of(v@);
                let mut found: Vec<SharedParam> = Vec::new();
                let mut k: usize = 0;
                proof {
                    assert(refs_of(found@) =~= struct_matches(ps.take(0), key.value));
                }
                while k < v.len()
                    invariant
                        k <= v@.len(),
                        refs_of(found@) == struct_matches(ps.take(k as int), key.value),
                        forall|j: int|
                            0 <= j < found@.len() ==> (#[trigger] found@[j]).idx < self@.len(),
                    decreases v@.len() - k,
                {
                    let ghost fv = found@;
                    proof {
                        assert(ps.take(k as int + 1).drop_last() =~= ps.take(k as int));
                        assert(ps.take(k as int + 1).last() == ps[k as int]);
                        assert(ps[k as int] == (v@[k as int].0.value, v@[k as int].1.idx as int));
                    }
                    let pair = v[k];
                    if pair.0.value == key.value {
                        found.push(pair.1);
                        proof {
                            assert(kids(self.node(h))[k as int] == v@[k as int].1.idx as int);
                            assert(refs_of(found@) =~= refs_of(fv).push(pair.1.idx as int));
                        }
                    }
                    k += 1;
                }
                proof {
                    assert(ps.take(v@.len() as int) =~= ps);
                }
                if found.len() == 0 {
                    Err(ParamError::KeyNotFound)
                } else if found.len() == 1 {
                    let e = found[0];
                    proof {
                        assert(refs_of(found@)[0] == e.idx as int);
                    }
                    Ok(StructLookup::One(e))
                } else {
                    Ok(StructLookup::Many(found))
                }
            },
            _ => Err(ParamError::TypeKind),
        }
    }

    /// Replaces the value of the single struct entry matching `key` with
    /// the supplied handle; `KeyNotFound` when nothing matches,
    /// `AmbiguousKey` when more than one entry matches.  The caller must
    /// not tie a cycle: the arena with the entry so replaced must still be
    /// well formed.
    #[verifier::loop_isolation(false)]
    pub fn struct_set(&mut self, h: SharedParam, key: HashKey, value: SharedParam) -> (r: Result<
        (),
        ParamError,
    >)
        requires
            old(self).wf(),
            old(self).holds(h),
            old(self).holds(value),
            old(self).node(h) matches NodeV::Struct(ps) ==> (match_positions(
                ps,
                key.value,
            ).len() == 1 ==> crate::tree::wf(
                old(self)@.update(
                    h.idx as int,
                    NodeV::Struct(
                        ps.update(
                            match_positions(ps, key.value)[0],
                            (key.value, value.idx as int),
                        ),
                    ),
                ),
            )),
        ensures
            final(self).wf(),
            old(self).node(h) matches NodeV::Struct(ps) ==> (match_positions(
                ps,
                key.value,
            ).len() == 0 ==> r == Err::<(), ParamError>(ParamError::KeyNotFound) && final(self)@
                == old(self)@),
            old(self).node(h) matches NodeV::Struct(ps) ==> (match_positions(
                ps,
                key.value,
            ).len() == 1 ==> r is Ok && final(self)@ == old(self)@.update(
                h.idx as int,
                NodeV::Struct(
                    ps.update(match_positions(ps, key.value)[0], (key.value, value.idx as int)),
                ),
            )),
            old(self).node(h) matches NodeV::Struct(ps) ==> (match_positions(
                ps,
                key.value,
            ).len() >= 2 ==> r == Err::<(), ParamError>(ParamError::AmbiguousKey) && final(self)@
                == old(self)@),
            !(old(self).node(h) is Struct) ==> r == Err::<(), ParamError>(ParamError::TypeKind)
                && final(self)@ == old(self)@,
    {
        let ghost a = self@;
        let outcome: Result<ParamNode, ParamError> = match &self.nodes[h.idx] {
            ParamNode::Struct(v) => {
                proof {
                    assert(a[h.idx as int] == NodeV::Struct(entries_of(v@)));
                }
                let ghost ps = entries_of(v@);
                let mut count: usize = 0;
                let mut pos: usize = 0;
                let mut k: usize = 0;
                proof {
                    assert(ps.take(0) =~= Seq::<(u64, int)>::empty());
                }
                while k < v.len()
                    invariant
                        k <= v@.len(),
                        count <= k,
                        count as int == match_positions(ps.take(k as int), key.value).len(),
                        count > 0 ==> pos < k && pos as int == match_positions(
                            ps.take(k as int),
                            key.value,
                        )[0],
                    decreases v@.len() - k,
                {
                    proof {
                        assert(ps.take(k as int + 1).drop_last() =~= ps.take(k as int));
                        assert(ps.take(k as int + 1).last() == ps[k as int]);
                        assert(ps[k as int] == (v@[k as int].0.value, v@[k as int].1.idx as int));
                    }
                    if v[k].0.value == key.value {
                        if count == 0 {
                            pos = k;
                        }
                        count = count + 1;
                    }
                    k += 1;
                }
                proof {
                    assert(ps.take(v@.len() as int) =~= ps);
                }
                if count == 0 {
                    Err(ParamError::KeyNotFound)
                } else if count > 1 {
                    Err(ParamError::AmbiguousKey)
                } else {
                    let pair = (v[pos].0, value);
                    let nv = vec_update_copy(v, pos, pair);
                    proof {
                        lemma_match_positions(ps, key.value);
                        assert(ps[pos as int].0 == key.value);
                        assert(v@[pos as int].0.value == key.value);
                        assert(entries_of(nv@) =~= ps.update(
                            pos as int,
                            (key.value, value.idx as int),
                        ));
                    }
                    Ok(ParamNode::Struct(nv))
                }
            },
            _ => Err(ParamError::TypeKind),
        };
        match outcome {
            Ok(n) => {
                proof {
                    assert(a[h.idx as int] matches NodeV::Struct(ps) && n@ == NodeV::Struct(
                        ps.update(
                            match_positions(ps, key.value)[0],
                            (key.value, value.idx as int),
                        ),
                    ));
                }
                self.nodes.set(h.idx, n);
                proof {
                    assert(self@ =~= a.update(h.idx as int, n@));
                }
                Ok(())
            },
            Err(e) => {
                proof {
                    assert(self@ =~= a);
                }
                Err(e)
            },
        }
    }
}

/// A copy of `v` with the element at `i` replaced by `x`.
#[verifier::loop_isolation(false)]
fn vec_update_copy<T: Copy>(v: &Vec<T>, i: usize, x: T) -> (r: Vec<T>)
    requires
        i < v@.len(),
    ensures
        r@ == v@.update(i as int, x),
{
    let mut r: Vec<T> = Vec::new();
    let mut k: usize = 0;
    while k < v.len()
        invariant
            k <= v@.len(),
            r@.len() == k,
            forall|j: int|
                0 <= j < k ==> r@[j] == (if j == i {
                    x
                } else {
                    v@[j]
                }),
        decreases v@.len() - k,
    {
        if k == i {
            r.push(x);
        } else {
            r.push(v[k]);
        }
        k += 1;
    }
    proof {
        assert(r@ =~= v@.update(i as int, x));
    }
    r
}

/// The stable integer code of a node's variant.
fn node_code(n: &ParamNode) -> (r: u8)
    ensures
        r == type_code(n@),
{
    match n {
        ParamNode::Bool(_) => 1,
        ParamNode::I8(_) => 2,
        ParamNode::U8(_) => 3,
        ParamNode::I16(_) => 4,
        ParamNode::U16(_) => 5,
        ParamNode::I32(_) => 6,
        ParamNode::U32(_) => 7,
        ParamNode::FloatBits(_) => 8,
        ParamNode::Hash(_) => 9,
        ParamNode::Str(_) => 10,
        ParamNode::List(_) => 11,
        ParamNode::Struct(_) => 12,
    }
}

/// The stable integer code of a scalar value's kind.
fn scalar_code(v: &ScalarValue) -> (r: u8)
    ensures
        r == type_code(v@),
{
    match v {
        ScalarValue::Bool(_) => 1,
        ScalarValue::I8(_) => 2,
        ScalarValue::U8(_) => 3,
        ScalarValue::I16(_) => 4,
        ScalarValue::U16(_) => 5,
        ScalarValue::I32(_) => 6,
        ScalarValue::U32(_) => 7,
        ScalarValue::FloatBits(_) => 8,
        ScalarValue::Hash(_) => 9,
        ScalarValue::Str(_) => 10,
    }
}

/// The node a scalar value denotes.
fn scalar_to_node(v: ScalarValue) -> (n: ParamNode)
    ensures
        n@ == v@,
{
    match v {
        ScalarValue::Bool(x) => ParamNode::Bool(x),
        ScalarValue::I8(x) => ParamNode::I8(x),
        ScalarValue::U8(x) => ParamNode::U8(x),
        ScalarValue::I16(x) => ParamNode::I16(x),
        ScalarValue::U16(x) => ParamNode::U16(x),
        ScalarValue::I32(x) => ParamNode::I32(x),
        ScalarValue::U32(x) => ParamNode::U32(x),
        ScalarValue::FloatBits(x) => ParamNode::FloatBits(x),
        ScalarValue::Hash(x) => ParamNode::Hash(x),
        ScalarValue::Str(x) => ParamNode::Str(x),
    }
}

} // verus!
