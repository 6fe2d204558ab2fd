use vstd::prelude::*;
use vstd::rwlock::{RwLock, RwLockPredicate};

use crate::id::IdPath;

verus! {

/// Predicate of the wake queue's lock: any buffer of id paths may be stored.
pub struct WakePred;

impl RwLockPredicate<Vec<IdPath>> for WakePred {
    open spec fn inv(self, v: Vec<IdPath>) -> bool {
        true
    }
}

/// Cross-thread buffer of id paths representing completed asynchronous work
/// pending re-entry into the view tree. Producers on any thread append with
/// [`WakeQueue::push_wake`]; the single driver thread drains with
/// [`WakeQueue::take`]. Both operations run under one mutual-exclusion
/// section, so a burst of concurrent pushes is some serialization of
/// [`buffer_push`] steps; [`lemma_wake_coalescing`] states what every such
/// serialization yields.
pub struct WakeQueue {
    lock: RwLock<Vec<IdPath>, WakePred>,
}

/// One producer step on the buffer the lock protects: append one id path
/// and report whether the buffer was empty beforehand.
pub fn buffer_push(buf: &mut Vec<IdPath>, id_path: IdPath) -> (was_empty: bool)
    ensures
        final(buf)@ == old(buf)@.push(id_path),
        was_empty == (old(buf)@.len() == 0),
{
    let was_empty = buf.len() == 0;
    buf.push(id_path);
    was_empty
}

/// The drain step on the buffer the lock protects: remove and return
/// everything, leaving the buffer empty.
pub fn buffer_take(buf: &mut Vec<IdPath>) -> (r: Vec<IdPath>)
    ensures
        r@ == old(buf)@,
        final(buf)@ == Seq::<IdPath>::empty(),
{
    let mut taken: Vec<IdPath> = Vec::new();
    core::mem::swap(buf, &mut taken);
    taken
}

impl WakeQueue {
    pub fn new() -> WakeQueue {
        WakeQueue { lock: RwLock::new(Vec::new(), Ghost(WakePred)) }
    }

    /// Appends one id path; returns whether the queue was empty beforehand,
    /// so that exactly the producer that makes the queue non-empty signals
    /// the platform's idle-wake primitive, and an append to an empty queue
    /// reliably triggers one future drain.
    pub fn push_wake(&self, id_path: IdPath) -> (was_empty: bool) {
        let (mut buf, handle) = self.lock.acquire_write();
        let was_empty = buffer_push(&mut buf, id_path);
        handle.release_write(buf);
        was_empty
    }

    /// Atomically removes and returns all pending id paths, leaving the
    /// queue empty.
    pub fn take(&self) -> Vec<IdPath> {
        let (mut buf, handle) = self.lock.acquire_write();
        let taken = buffer_take(&mut buf);
        handle.release_write(buf);
        taken
    }
}

/// The buffer contents after the first `k` of the pushes in `paths` have
/// run, starting from an empty buffer, exactly as [`buffer_push`] steps it.
pub open spec fn buffer_after(paths: Seq<IdPath>, k: int) -> Seq<IdPath>
    decreases k,
{
    if k <= 0 {
        Seq::empty()
    } else {
        buffer_after(paths, k - 1).push(paths[k - 1])
    }
}

/// Wake coalescing: a burst of `n` pushes serialized by the queue's lock,
/// starting from an empty buffer, leaves exactly the pushed id paths for
/// the next drain — none lost, none invented — and only the push that runs
/// first observes the queue empty.
pub proof fn lemma_wake_coalescing(paths: Seq<IdPath>, n: int)
    requires
        0 <= n <= paths.len(),
    ensures
        buffer_after(paths, n) == paths.take(n),
        forall|k: int| 0 <= k < n ==> ((buffer_after(paths, k).len() == 0) <==> k == 0),
    decreases n,
{
    if n > 0 {
        lemma_wake_coalescing(paths, n - 1);
        assert(buffer_after(paths, n) =~= paths.take(n));
    } else {
        assert(buffer_after(paths, 0) =~= paths.take(0));
    }
}

} // verus!
