//! Point-in-time iteration over container nodes.
//!
//! An iterator copies the container's child handles at construction time,
//! so later mutation of the source node does not affect a sequence already
//! begun, and walking the iterator never touches the arena.

use vstd::prelude::*;

use crate::arena::ParamArena;
use crate::arena::ParamNode;
use crate::arena::SharedParam;
use crate::arena::entries_of;
use crate::arena::refs_of;
use crate::errors::ParamError;
use crate::hash::HashKey;
use crate::tree::NodeV;
use crate::tree::is_scalar;

verus! {

/// One yielded item: a list element alias, or a struct entry as its key
/// and a value alias.
#[derive(Clone, Copy, Debug)]
pub enum IterEntry {
    Elem(SharedParam),
    Pair(HashKey, SharedParam),
}

/// A point-in-time sequence of the child entries of one container node.
pub struct SnapshotIterator {
    entries: Vec<IterEntry>,
    pos: usize,
}

impl SnapshotIterator {
    /// The snapshot taken at construction, in order.
    pub closed spec fn items(&self) -> Seq<IterEntry> {
        self.entries@
    }

    /// How many items have been yielded so far.
    pub closed spec fn position(&self) -> int {
        self.pos as int
    }

    /// The next snapshot entry; `None` on every call once exhausted.
    pub fn next(&mut self) -> (r: Option<IterEntry>)
        ensures
            final(self).items() == old(self).items(),
            old(self).position() < old(self).items().len() ==> (r == Some(
                old(self).items()[old(self).position()],
            ) && final(self).position() == old(self).position() + 1),
            old(self).position() >= old(self).items().len() ==> (r is None
                && final(self).position() == old(self).position()),
    {
        if self.pos < self.entries.len() {
            let e = self.entries[self.pos];
            self.pos = self.pos + 1;
            Some(e)
        } else {
            None
        }
    }
}

impl ParamArena {
    /// A snapshot of the children of a List or Struct node, taken now:
    /// later mutation of the source node does not affect the snapshot, and
    /// the snapshot holds aliases, so the elements themselves are shared,
    /// not copied.  `TypeKind` on scalar nodes.
    #[verifier::loop_isolation(false)]
    pub fn iterate(&self, h: SharedParam) -> (r: Result<SnapshotIterator, ParamError>)
        requires
            self.holds(h),
        ensures
            self.node(h) matches NodeV::List(cs) ==> (r matches Ok(it) && it.position() == 0
                && it.items().len() == cs.len() && forall|m: int|
                0 <= m < cs.len() ==> (#[trigger] it.items()[m] matches IterEntry::Elem(e)
                    && e.idx as int == cs[m])),
            self.node(h) matches NodeV::Struct(ps) ==> (r matches Ok(it) && it.position() == 0
                && it.items().len() == ps.len() && forall|m: int|
                0 <= m < ps.len() ==> (#[trigger] it.items()[m] matches IterEntry::Pair(k, e)
                    && k.value == ps[m].0 && e.idx as int == ps[m].1)),
            is_scalar(self.node(h)) ==> r == Err::<SnapshotIterator, ParamError>(
                ParamError::TypeKind,
            ),
    {
        match self.node_ref(h) {
            ParamNode::List(v) => {
                let mut entries: Vec<IterEntry> = Vec::new();
                let mut k: usize = 0;
                while k < v.len()
                    invariant
                        k <= v@.len(),
                        entries@.len() == k as int,
                        forall|m: int|
                            0 <= m < k ==> (#[trigger] entries@[m] matches IterEntry::Elem(e)
                                && e.idx as int == refs_of(v@)[m]),
                    decreases v@.len() - k,
                {
                    entries.push(IterEntry::Elem(v[k]));
                    k += 1;
                }
                Ok(SnapshotIterator { entries, pos: 0 })
            },
            ParamNode::Struct(v) => {
                let mut entries: Vec<IterEntry> = Vec::new();
                let mut k: usize = 0;
                while k < v.len()
                    invariant
                        k <= v@.len(),
                        entries@.len() == k as int,
                        forall|m: int|
                            0 <= m < k ==> (#[trigger] entries@[m] matches IterEntry::Pair(key, e)
                                && key.value == entries_of(v@)[m].0 && e.idx as int == entries_of(
                                v@,
                            )[m].1),
                    decreases v@.len() - k,
                {
                    let p = v[k];
                    entries.push(IterEntry::Pair(p.0, p.1));
                    k += 1;
                }
                Ok(SnapshotIterator { entries, pos: 0 })
            },
            _ => Err(ParamError::TypeKind),
        }
    }
}

} // verus!
