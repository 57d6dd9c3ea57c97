use kernel_sync::ledger::{copy_of, grow, read_entry, record, set_entry};
use kernel_sync::task::{TaskControlBlock, TaskControlBlockInner, TaskStatus};

#[test]
fn grow_backfills_zeros() {
    let mut v: Vec<usize> = vec![4];
    grow(&mut v, 3);
    assert_eq!(v, vec![4, 0, 0, 0]);
    grow(&mut v, 1);
    assert_eq!(v, vec![4, 0, 0, 0]);
}

#[test]
fn record_grows_then_adds() {
    let mut v: Vec<usize> = Vec::new();
    record(&mut v, 2, 5, true);
    assert_eq!(v, vec![0, 0, 5]);
    record(&mut v, 2, 2, false);
    assert_eq!(v, vec![0, 0, 3]);
    record(&mut v, 0, 0, true);
    assert_eq!(v, vec![0, 0, 3]);
}

#[test]
fn set_entry_replaces_the_count() {
    let mut v: Vec<usize> = vec![7, 8];
    set_entry(&mut v, 1, 0);
    assert_eq!(v, vec![7, 0]);
    set_entry(&mut v, 3, 9);
    assert_eq!(v, vec![7, 0, 0, 9]);
}

#[test]
fn read_entry_is_zero_beyond_the_end() {
    let v: Vec<usize> = vec![7, 8];
    assert_eq!(read_entry(&v, 0), 7);
    assert_eq!(read_entry(&v, 1), 8);
    assert_eq!(read_entry(&v, 2), 0);
    assert_eq!(read_entry(&v, usize::MAX), 0);
}

#[test]
fn copy_of_copies() {
    let v: Vec<usize> = vec![1, 2, 3];
    assert_eq!(copy_of(&v), v);
    assert_eq!(copy_of(&Vec::new()), Vec::<usize>::new());
}

#[test]
fn new_task_is_ready_with_empty_rows() {
    let task = TaskControlBlock::new(3);
    assert_eq!(task.tid, 3);
    assert!(task.inner.get_status() == TaskStatus::Ready);
    assert!(task.inner.exit_code.is_none());
    assert!(task.inner.wake_at.is_none());
    assert!(task.inner.mutex_allocation.is_empty());
    assert!(task.inner.mutex_need.is_empty());
    assert!(task.inner.semaphore_allocation.is_empty());
    assert!(task.inner.semaphore_need.is_empty());
}

#[test]
fn adjust_mutex_allocation_grows_and_counts() {
    let mut inner = TaskControlBlockInner::new();
    inner.adjust_mutex_allocation(2, 1, true);
    assert_eq!(inner.mutex_allocation, vec![0, 0, 1]);
    inner.adjust_mutex_allocation(2, 1, false);
    assert_eq!(inner.mutex_allocation, vec![0, 0, 0]);
    assert!(inner.mutex_need.is_empty());
}

#[test]
fn adjust_sema_allocation_grows_and_counts() {
    let mut inner = TaskControlBlockInner::new();
    inner.adjust_sema_allocation(1, 3, true);
    inner.adjust_sema_allocation(1, 1, false);
    assert_eq!(inner.semaphore_allocation, vec![0, 2]);
    assert!(inner.mutex_allocation.is_empty());
}

#[test]
fn adjust_mutex_need_grows_and_counts() {
    let mut inner = TaskControlBlockInner::new();
    inner.adjust_mutex_need(0, 0, true);
    assert_eq!(inner.mutex_need, vec![0]);
    inner.adjust_mutex_need(1, 1, true);
    assert_eq!(inner.mutex_need, vec![0, 1]);
}

#[test]
fn adjust_sema_need_grows_and_counts() {
    let mut inner = TaskControlBlockInner::new();
    inner.adjust_sema_need(3, 2, true);
    inner.adjust_sema_need(3, 2, false);
    assert_eq!(inner.semaphore_need, vec![0, 0, 0, 0]);
}

#[test]
fn inner_exclusive_access_reaches_the_rows() {
    let mut task = TaskControlBlock::new(0);
    task.inner_exclusive_access().adjust_mutex_need(0, 1, true);
    task.inner_exclusive_access().task_status = TaskStatus::Running;
    assert_eq!(task.inner.mutex_need, vec![1]);
    assert!(task.inner.get_status() == TaskStatus::Running);
}
