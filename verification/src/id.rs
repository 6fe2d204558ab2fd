use vstd::prelude::*;

verus! {

/// A process-unique identifier for one live node in the view/widget tree.
/// Immutable once assigned; never reused while the node it names is live.
#[derive(Clone, Copy, PartialEq, Eq, Structural, Debug)]
pub struct Id {
    pub raw: u64,
}

/// Root-to-node sequence of ids: the routing key for events and the
/// correlation key for reconciliation. Two nodes are the same logical node
/// across rebuilds iff their id paths match.
pub type IdPath = Vec<Id>;

/// Structural equality of two id paths.
pub fn id_path_eq(a: &IdPath, b: &IdPath) -> (r: bool)
    ensures
        r == (a@ == b@),
{
    if a.len() != b.len() {
        return false;
    }
    let mut i: usize = 0;
    while i < a.len()
        invariant
            i <= a.len(),
            a@.len() == b@.len(),
            forall|k: int| 0 <= k < i ==> a@[k] == b@[k],
        decreases a.len() - i,
    {
        if a[i] != b[i] {
            return false;
        }
        i = i + 1;
    }
    proof {
        assert(a@ =~= b@);
    }
    true
}

/// An owned copy of an id path.
pub fn clone_id_path(p: &IdPath) -> (r: IdPath)
    ensures
        r@ == p@,
{
    let mut r: IdPath = Vec::new();
    let mut i: usize = 0;
    while i < p.len()
        invariant
            i <= p.len(),
            r@ == p@.take(i as int),
        decreases p.len() - i,
    {
        r.push(p[i]);
        i = i + 1;
        proof {
            assert(r@ =~= p@.take(i as int));
        }
    }
    proof {
        assert(p@.take(p@.len() as int) =~= p@);
    }
    r
}

} // verus!
