use kernel_sync::condvar::Condvar;
use kernel_sync::mutex::{LockOutcome, Mutex};
use kernel_sync::semaphore::Semaphore;

fn queue_of(m: &Mutex) -> Vec<usize> {
    match m {
        Mutex::Spin(_) => Vec::new(),
        Mutex::Blocking(b) => b.wait_queue.iter().copied().collect(),
    }
}

#[test]
fn new_mutex_is_free() {
    assert!(!Mutex::new(true).locked());
    assert!(!Mutex::new(false).locked());
    assert!(matches!(Mutex::new(true), Mutex::Blocking(_)));
    assert!(matches!(Mutex::new(false), Mutex::Spin(_)));
}

#[test]
fn spin_mutex_is_busy_while_held() {
    let mut m = Mutex::new(false);
    assert!(m.lock(0) == LockOutcome::Acquired);
    assert!(m.locked());
    assert!(m.lock(1) == LockOutcome::Busy);
    assert!(m.lock(1) == LockOutcome::Busy);
    assert_eq!(m.unlock(), None);
    assert!(!m.locked());
    assert!(m.lock(1) == LockOutcome::Acquired);
}

#[test]
fn blocking_mutex_queues_in_order() {
    let mut m = Mutex::new(true);
    assert!(m.lock(5) == LockOutcome::Acquired);
    assert!(m.lock(7) == LockOutcome::Queued);
    assert!(m.lock(6) == LockOutcome::Queued);
    assert_eq!(queue_of(&m), vec![7, 6]);
    assert_eq!(m.unlock(), Some(7));
    assert!(!m.locked());
    assert_eq!(queue_of(&m), vec![6]);
    assert!(m.lock(7) == LockOutcome::Acquired);
    assert_eq!(m.unlock(), Some(6));
    assert_eq!(m.unlock(), None);
}

#[test]
fn semaphore_counts_below_zero_while_tasks_wait() {
    let mut s = Semaphore::new(2);
    assert_eq!(s.count, 2);
    assert!(!s.down(0));
    assert!(!s.down(1));
    assert_eq!(s.count, 0);
    assert!(s.down(2));
    assert!(s.down(3));
    assert_eq!(s.count, -2);
    assert_eq!(s.wait_queue.iter().copied().collect::<Vec<usize>>(), vec![2, 3]);
    assert_eq!(s.up(), Some(2));
    assert_eq!(s.up(), Some(3));
    assert_eq!(s.count, 0);
    assert_eq!(s.up(), None);
    assert_eq!(s.count, 1);
}

#[test]
fn semaphore_without_units_blocks_at_once() {
    let mut s = Semaphore::new(0);
    assert!(s.down(4));
    assert_eq!(s.count, -1);
    assert_eq!(s.up(), Some(4));
}

#[test]
fn condvar_signal_without_waiter_is_lost() {
    let mut cv = Condvar::new();
    assert_eq!(cv.signal(), None);
    assert!(cv.wait_queue.is_empty());
}

#[test]
fn condvar_wait_releases_the_mutex_and_queues() {
    let mut cv = Condvar::new();
    let mut m = Mutex::new(true);
    assert!(m.lock(0) == LockOutcome::Acquired);
    assert!(m.lock(1) == LockOutcome::Queued);
    assert_eq!(cv.wait(0, &mut m), Some(1));
    assert!(!m.locked());
    assert_eq!(cv.wait_queue.iter().copied().collect::<Vec<usize>>(), vec![0]);
    assert!(m.lock(1) == LockOutcome::Acquired);
    assert_eq!(cv.wait(1, &mut m), None);
    assert_eq!(cv.signal(), Some(0));
    assert_eq!(cv.signal(), Some(1));
    assert_eq!(cv.signal(), None);
}
