use xilem::id::{Id, IdPath};
use xilem::wake::WakeQueue;

fn path(raws: &[u64]) -> IdPath {
    let mut p: IdPath = Vec::new();
    for r in raws {
        p.push(Id { raw: *r });
    }
    p
}

#[test]
fn push_wake_reports_empty_transition_only_once() {
    let q = WakeQueue::new();
    assert!(q.push_wake(path(&[1, 2])));
    assert!(!q.push_wake(path(&[1, 3])));
    assert!(!q.push_wake(path(&[1, 2])));
}

#[test]
fn take_drains_all_pushed_paths_in_order() {
    let q = WakeQueue::new();
    let n = 5u64;
    for k in 0..n {
        let was_empty = q.push_wake(path(&[1, k]));
        assert_eq!(was_empty, k == 0);
    }
    let drained = q.take();
    assert_eq!(drained.len(), 5);
    for k in 0..n {
        assert_eq!(drained[k as usize].len(), 2);
        assert_eq!(drained[k as usize][0].raw, 1);
        assert_eq!(drained[k as usize][1].raw, k);
    }
    assert_eq!(q.take().len(), 0);
    assert!(q.push_wake(path(&[9])));
}

#[test]
fn take_on_fresh_queue_is_empty() {
    let q = WakeQueue::new();
    assert_eq!(q.take().len(), 0);
}
