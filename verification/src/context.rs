use vstd::prelude::*;

use crate::id::{Id, IdPath};

verus! {

/// Scoped accumulator threading the identity allocator through the
/// recursive build/rebuild walk of the view tree. Every push of a tree
/// scope must be matched by a pop before the enclosing call returns; the
/// driver checks that the context is balanced (empty) after a full rebuild.
pub struct Cx {
    id_path: IdPath,
    next_raw: u64,
}

impl Cx {
    /// The open scope stack, root to innermost.
    pub closed spec fn path(&self) -> Seq<Id> {
        self.id_path@
    }

    /// The next raw id the allocator will hand out; every id already
    /// assigned to a live node lies strictly below this bound.
    pub closed spec fn next_id(&self) -> u64 {
        self.next_raw
    }

    pub fn new() -> (cx: Cx)
        ensures
            cx.path() == Seq::<Id>::empty(),
            cx.next_id() == 1,
    {
        Cx { id_path: Vec::new(), next_raw: 1 }
    }

    /// True iff no scope is open: the balance check run by the driver
    /// after every rebuild.
    pub fn is_empty(&self) -> (r: bool)
        ensures
            r == (self.path().len() == 0),
    {
        self.id_path.len() == 0
    }

    /// Allocates a fresh id, distinct from every id handed out before.
    pub fn alloc_id(&mut self) -> (id: Id)
        requires
            old(self).next_id() < u64::MAX,
        ensures
            id.raw == old(self).next_id(),
            final(self).next_id() == old(self).next_id() + 1,
            final(self).path() == old(self).path(),
    {
        let id = Id { raw: self.next_raw };
        self.next_raw = self.next_raw + 1;
        id
    }

    /// Opens the scope of the node named `id`.
    pub fn push(&mut self, id: Id)
        ensures
            final(self).path() == old(self).path().push(id),
            final(self).next_id() == old(self).next_id(),
    {
        self.id_path.push(id);
    }

    /// Closes the innermost scope.
    pub fn pop(&mut self)
        requires
            old(self).path().len() > 0,
        ensures
            final(self).path() == old(self).path().drop_last(),
            final(self).next_id() == old(self).next_id(),
    {
        let _ = self.id_path.pop();
        proof {
            assert(self.id_path@ =~= old(self).id_path@.drop_last());
        }
    }

    /// Whether the allocator can still serve `n` more ids.
    pub fn headroom(&self, n: u64) -> (r: bool)
        ensures
            r == (self.next_id() + n <= u64::MAX),
    {
        n <= u64::MAX - self.next_raw
    }

    /// A copy of the current scope stack, recorded as the id path of a
    /// newly wrapped pod.
    pub fn snapshot_path(&self) -> (p: IdPath)
        ensures
            p@ == self.path(),
    {
        let mut p: IdPath = Vec::new();
        let mut i: usize = 0;
        while i < self.id_path.len()
            invariant
                i <= self.id_path.len(),
                p@ == self.id_path@.take(i as int),
            decreases self.id_path.len() - i,
        {
            p.push(self.id_path[i]);
            i = i + 1;
            proof {
                assert(p@ =~= self.id_path@.take(i as int));
            }
        }
        proof {
            assert(self.id_path@.take(self.id_path@.len() as int) =~= self.id_path@);
        }
        p
    }
}

} // verus!
