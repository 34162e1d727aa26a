//! The immutable, flat tree shape consumed and produced by the binary
//! codec.  Unlike arena nodes, a [`ParamValue`] owns its children outright,
//! so it denotes a [`Tree`] directly, with no sharing.

use vstd::prelude::*;

use crate::hash::HashKey;
use crate::tree::Tree;

verus! {

/// One immutable param value; the float variant carries the raw bit
/// pattern of its 32-bit payload.
pub enum ParamValue {
    Bool(bool),
    I8(i8),
    U8(u8),
    I16(i16),
    U16(u16),
    I32(i32),
    U32(u32),
    FloatBits(u32),
    Hash(HashKey),
    Str(String),
    List(Vec<ParamValue>),
    Struct(Vec<(HashKey, ParamValue)>),
}

/// The tree a value denotes.
pub open spec fn value_tree(p: ParamValue) -> Tree
    decreases p,
{
    match p {
        ParamValue::Bool(v) => Tree::Bool(v),
        ParamValue::I8(v) => Tree::I8(v),
        ParamValue::U8(v) => Tree::U8(v),
        ParamValue::I16(v) => Tree::I16(v),
        ParamValue::U16(v) => Tree::U16(v),
        ParamValue::I32(v) => Tree::I32(v),
        ParamValue::U32(v) => Tree::U32(v),
        ParamValue::FloatBits(v) => Tree::FloatBits(v),
        ParamValue::Hash(v) => Tree::Hash(v.value),
        ParamValue::Str(v) => Tree::Str(v@),
        ParamValue::List(v) => Tree::List(values_trees(v@)),
        ParamValue::Struct(v) => Tree::Struct(pairs_trees(v@)),
    }
}

/// The trees of a sequence of values, in order.
pub open spec fn values_trees(s: Seq<ParamValue>) -> Seq<Tree>
    decreases s,
{
    if s.len() == 0 {
        Seq::empty()
    } else {
        values_trees(s.drop_last()).push(value_tree(s.last()))
    }
}

/// The keys and trees of a sequence of keyed values, in order.
pub open spec fn pairs_trees(s: Seq<(HashKey, ParamValue)>) -> Seq<(u64, Tree)>
    decreases s,
{
    if s.len() == 0 {
        Seq::empty()
    } else {
        pairs_trees(s.drop_last()).push((s.last().0.value, value_tree(s.last().1)))
    }
}

impl View for ParamValue {
    type V = Tree;

    open spec fn view(&self) -> Tree {
        value_tree(*self)
    }
}

/// `values_trees` is the pointwise image of `value_tree`.
pub proof fn lemma_values_trees_index(s: Seq<ParamValue>)
    ensures
        values_trees(s).len() == s.len(),
        forall|k: int| 0 <= k < s.len() ==> values_trees(s)[k] == value_tree(#[trigger] s[k]),
    decreases s.len(),
{
    if s.len() > 0 {
        lemma_values_trees_index(s.drop_last());
        assert forall|k: int| 0 <= k < s.len() implies values_trees(s)[k] == value_tree(
            #[trigger] s[k],
        ) by {
            if k < s.len() - 1 {
                assert(s.drop_last()[k] == s[k]);
            } else {
                assert(s.last() == s[k]);
            }
        }
    }
}

/// `pairs_trees` is the pointwise image of `value_tree` on the values.
pub proof fn lemma_pairs_trees_index(s: Seq<(HashKey, ParamValue)>)
    ensures
        pairs_trees(s).len() == s.len(),
        forall|k: int|
            0 <= k < s.len() ==> pairs_trees(s)[k] == ((#[trigger] s[k]).0.value, value_tree(
                s[k].1,
            )),
    decreases s.len(),
{
    if s.len() > 0 {
        lemma_pairs_trees_index(s.drop_last());
        assert forall|k: int| 0 <= k < s.len() implies pairs_trees(s)[k] == ((
        #[trigger] s[k]).0.value, value_tree(s[k].1)) by {
            if k < s.len() - 1 {
                assert(s.drop_last()[k] == s[k]);
            } else {
                assert(s.last() == s[k]);
            }
        }
    }
}

} // verus!
