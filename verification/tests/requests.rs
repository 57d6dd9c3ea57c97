use kernel_sync::mutex::Mutex;
use kernel_sync::process::ProcessControlBlock;
use kernel_sync::syscall::{
    acquire_mutex, find_free, sys_condvar_create, sys_condvar_signal, sys_condvar_wait,
    sys_enable_deadlock_detect, sys_mutex_create, sys_mutex_lock, sys_mutex_unlock,
    sys_semaphore_create, sys_semaphore_down, sys_semaphore_up, sys_sleep, DEADLOCK, INVALID,
    SUCCESS,
};
use kernel_sync::task::TaskStatus;

fn process_with_tasks(n: usize) -> ProcessControlBlock {
    let mut p = ProcessControlBlock::new();
    for i in 0..n {
        assert_eq!(p.add_task(), i);
    }
    p
}

fn status(p: &ProcessControlBlock, tid: usize) -> TaskStatus {
    p.get_task(tid).inner.get_status()
}

fn waiters(p: &ProcessControlBlock, mutex_id: usize) -> Vec<usize> {
    match p.mutex_list[mutex_id].as_ref().unwrap() {
        Mutex::Spin(_) => Vec::new(),
        Mutex::Blocking(b) => b.wait_queue.iter().copied().collect(),
    }
}

fn rows(p: &ProcessControlBlock) -> Vec<(Vec<usize>, Vec<usize>, Vec<usize>, Vec<usize>)> {
    p.tasks
        .iter()
        .map(|t| {
            (
                t.inner.mutex_allocation.clone(),
                t.inner.mutex_need.clone(),
                t.inner.semaphore_allocation.clone(),
                t.inner.semaphore_need.clone(),
            )
        })
        .collect()
}

#[test]
fn sentinel_values() {
    assert_eq!(SUCCESS, 0);
    assert_eq!(INVALID, -1);
    assert_eq!(DEADLOCK, -0xdead);
    assert_eq!(DEADLOCK, -57005);
}

#[test]
fn new_process_is_empty_with_detection_off() {
    let p = ProcessControlBlock::new();
    assert!(!p.deadlock_det);
    assert!(p.tasks.is_empty());
    assert!(p.mutex_list.is_empty());
    assert!(p.semaphore_list.is_empty());
    assert!(p.condvar_list.is_empty());
    assert!(p.mutex_available.is_empty());
    assert!(p.semaphore_available.is_empty());
}

#[test]
fn find_free_takes_first_empty_slot() {
    let list: Vec<Option<u8>> = vec![Some(1), None, Some(3), None];
    assert_eq!(find_free(&list), 1);
    let full: Vec<Option<u8>> = vec![Some(1), Some(2)];
    assert_eq!(find_free(&full), 2);
    let empty: Vec<Option<u8>> = Vec::new();
    assert_eq!(find_free(&empty), 0);
}

#[test]
fn enable_deadlock_detect_accepts_zero_and_one_only() {
    let mut p = process_with_tasks(1);
    assert_eq!(sys_enable_deadlock_detect(&mut p, 1), 0);
    assert!(p.deadlock_det);
    assert_eq!(sys_enable_deadlock_detect(&mut p, 2), -1);
    assert!(p.deadlock_det);
    assert_eq!(sys_enable_deadlock_detect(&mut p, 0), 0);
    assert!(!p.deadlock_det);
    assert_eq!(sys_enable_deadlock_detect(&mut p, usize::MAX), -1);
    assert!(!p.deadlock_det);
}

#[test]
fn handles_count_up_from_zero() {
    let mut p = process_with_tasks(1);
    assert_eq!(sys_mutex_create(&mut p, true), 0);
    assert_eq!(sys_mutex_create(&mut p, false), 1);
    assert_eq!(sys_semaphore_create(&mut p, 3), 0);
    assert_eq!(sys_semaphore_create(&mut p, 0), 1);
    assert_eq!(sys_condvar_create(&mut p), 0);
    assert_eq!(sys_condvar_create(&mut p), 1);
    assert_eq!(p.mutex_available, vec![1, 1]);
    assert_eq!(p.semaphore_available, vec![3, 0]);
    assert!(matches!(p.mutex_list[0], Some(Mutex::Blocking(_))));
    assert!(matches!(p.mutex_list[1], Some(Mutex::Spin(_))));
    assert_eq!(p.semaphore_list[0].as_ref().unwrap().count, 3);
}

#[test]
fn creating_a_mutex_extends_every_task_row() {
    let mut p = process_with_tasks(3);
    for m in 0..4 {
        assert_eq!(sys_mutex_create(&mut p, true), m);
        for t in 0..3 {
            assert!(p.tasks[t].inner.mutex_allocation.len() >= m as usize + 1);
            assert!(p.tasks[t].inner.mutex_need.len() >= m as usize + 1);
            assert_eq!(p.tasks[t].inner.mutex_allocation[m as usize], 0);
            assert_eq!(p.tasks[t].inner.mutex_need[m as usize], 0);
            assert!(p.tasks[t].inner.semaphore_allocation.is_empty());
        }
    }
}

#[test]
fn creating_a_semaphore_extends_every_task_row() {
    let mut p = process_with_tasks(2);
    assert_eq!(sys_semaphore_create(&mut p, 5), 0);
    assert_eq!(sys_semaphore_create(&mut p, 6), 1);
    for t in 0..2 {
        assert_eq!(p.tasks[t].inner.semaphore_allocation, vec![0, 0]);
        assert_eq!(p.tasks[t].inner.semaphore_need, vec![0, 0]);
        assert!(p.tasks[t].inner.mutex_need.is_empty());
    }
}

#[test]
fn task_added_later_starts_with_empty_rows() {
    let mut p = process_with_tasks(1);
    assert_eq!(sys_mutex_create(&mut p, true), 0);
    let late = p.add_task();
    assert_eq!(late, 1);
    assert!(p.tasks[late].inner.mutex_allocation.is_empty());
    assert_eq!(sys_mutex_lock(&mut p, late, 0), SUCCESS);
    assert_eq!(p.tasks[late].inner.mutex_allocation, vec![1]);
    assert_eq!(p.tasks[late].inner.mutex_need, vec![0]);
}

#[test]
fn emptied_handle_is_reused_with_clean_rows() {
    let mut p = process_with_tasks(2);
    assert_eq!(sys_mutex_create(&mut p, true), 0);
    assert_eq!(sys_mutex_create(&mut p, true), 1);
    assert_eq!(sys_mutex_lock(&mut p, 0, 0), SUCCESS);
    assert_eq!(sys_mutex_lock(&mut p, 1, 0), SUCCESS);
    assert_eq!(p.tasks[0].inner.mutex_allocation, vec![1, 0]);
    assert_eq!(p.tasks[1].inner.mutex_need, vec![1, 0]);
    // The slot is emptied with its old counts still in the ledger.
    p.mutex_list[0] = None;
    assert_eq!(sys_mutex_create(&mut p, false), 0);
    assert!(matches!(p.mutex_list[0], Some(Mutex::Spin(_))));
    assert_eq!(p.mutex_available, vec![1, 1]);
    for t in 0..2 {
        assert_eq!(p.tasks[t].inner.mutex_allocation, vec![0, 0]);
        assert_eq!(p.tasks[t].inner.mutex_need, vec![0, 0]);
    }
    assert_eq!(sys_mutex_create(&mut p, true), 2);
}

#[test]
fn emptied_semaphore_handle_is_reused_with_clean_rows() {
    let mut p = process_with_tasks(1);
    assert_eq!(sys_semaphore_create(&mut p, 2), 0);
    assert_eq!(sys_semaphore_down(&mut p, 0, 0), SUCCESS);
    assert_eq!(p.tasks[0].inner.semaphore_allocation, vec![1]);
    p.semaphore_list[0] = None;
    assert_eq!(sys_semaphore_create(&mut p, 7), 0);
    assert_eq!(p.semaphore_available, vec![7]);
    assert_eq!(p.tasks[0].inner.semaphore_allocation, vec![0]);
    assert_eq!(p.tasks[0].inner.semaphore_need, vec![0]);
    assert_eq!(p.semaphore_list[0].as_ref().unwrap().count, 7);
}

#[test]
fn emptied_condvar_handle_is_reused() {
    let mut p = process_with_tasks(1);
    assert_eq!(sys_condvar_create(&mut p), 0);
    assert_eq!(sys_condvar_create(&mut p), 1);
    p.condvar_list[0] = None;
    assert_eq!(sys_condvar_signal(&mut p, 0), INVALID);
    assert_eq!(sys_condvar_create(&mut p), 0);
    assert_eq!(sys_condvar_create(&mut p), 2);
}

#[test]
fn lock_on_bad_handle_is_invalid() {
    let mut p = process_with_tasks(1);
    assert_eq!(sys_mutex_lock(&mut p, 0, 0), INVALID);
    assert_eq!(sys_mutex_unlock(&mut p, 0, 0), INVALID);
    assert_eq!(acquire_mutex(&mut p, 0, 3), INVALID);
    assert_eq!(sys_semaphore_down(&mut p, 0, 0), INVALID);
    assert_eq!(sys_semaphore_up(&mut p, 0, 0), INVALID);
    assert_eq!(sys_condvar_signal(&mut p, 0), INVALID);
    assert_eq!(sys_condvar_wait(&mut p, 0, 0, 0), INVALID);
    assert!(p.tasks[0].inner.mutex_need.is_empty());
    assert!(p.tasks[0].inner.semaphore_need.is_empty());
}

#[test]
fn lock_and_unlock_move_the_instance() {
    let mut p = process_with_tasks(1);
    sys_mutex_create(&mut p, true);
    assert_eq!(sys_mutex_lock(&mut p, 0, 0), 0);
    assert!(status(&p, 0) == TaskStatus::Running);
    assert_eq!(p.mutex_available, vec![0]);
    assert_eq!(p.tasks[0].inner.mutex_allocation, vec![1]);
    assert_eq!(p.tasks[0].inner.mutex_need, vec![0]);
    assert!(p.mutex_list[0].as_ref().unwrap().locked());
    assert_eq!(sys_mutex_unlock(&mut p, 0, 0), 0);
    assert_eq!(p.mutex_available, vec![1]);
    assert_eq!(p.tasks[0].inner.mutex_allocation, vec![0]);
    assert!(!p.mutex_list[0].as_ref().unwrap().locked());
}

#[test]
fn unlock_by_a_task_that_does_not_hold_is_invalid() {
    let mut p = process_with_tasks(2);
    sys_mutex_create(&mut p, true);
    assert_eq!(sys_mutex_unlock(&mut p, 0, 0), INVALID);
    assert_eq!(sys_mutex_lock(&mut p, 0, 0), SUCCESS);
    assert_eq!(sys_mutex_unlock(&mut p, 1, 0), INVALID);
    assert_eq!(p.mutex_available, vec![0]);
    assert!(p.mutex_list[0].as_ref().unwrap().locked());
    assert_eq!(sys_mutex_unlock(&mut p, 0, 0), SUCCESS);
    assert_eq!(sys_mutex_unlock(&mut p, 0, 0), INVALID);
    assert_eq!(p.mutex_available, vec![1]);
}

#[test]
fn blocking_mutex_is_held_by_one_task_at_a_time() {
    let mut p = process_with_tasks(3);
    sys_mutex_create(&mut p, true);
    assert_eq!(sys_mutex_lock(&mut p, 0, 0), SUCCESS);
    assert_eq!(sys_mutex_lock(&mut p, 1, 0), SUCCESS);
    assert_eq!(sys_mutex_lock(&mut p, 2, 0), SUCCESS);
    assert!(status(&p, 0) == TaskStatus::Running);
    assert!(status(&p, 1) == TaskStatus::Blocked);
    assert!(status(&p, 2) == TaskStatus::Blocked);
    assert_eq!(waiters(&p, 0), vec![1, 2]);
    let holders = |p: &ProcessControlBlock| -> usize {
        p.tasks.iter().map(|t| t.inner.mutex_allocation[0]).sum()
    };
    assert_eq!(holders(&p), 1);
    assert_eq!(p.tasks[1].inner.mutex_need, vec![1]);
    assert_eq!(p.tasks[2].inner.mutex_need, vec![1]);
    // The release wakes the longest waiter, which asks again and gets it.
    assert_eq!(sys_mutex_unlock(&mut p, 0, 0), SUCCESS);
    assert_eq!(holders(&p), 0);
    assert!(status(&p, 1) == TaskStatus::Ready);
    assert!(status(&p, 2) == TaskStatus::Blocked);
    assert_eq!(waiters(&p, 0), vec![2]);
    assert_eq!(sys_mutex_lock(&mut p, 1, 0), SUCCESS);
    assert!(status(&p, 1) == TaskStatus::Running);
    assert_eq!(holders(&p), 1);
    assert_eq!(p.tasks[1].inner.mutex_allocation, vec![1]);
    assert_eq!(p.tasks[1].inner.mutex_need, vec![0]);
    assert_eq!(p.mutex_available, vec![0]);
    assert_eq!(sys_mutex_unlock(&mut p, 1, 0), SUCCESS);
    assert!(status(&p, 2) == TaskStatus::Ready);
    assert_eq!(acquire_mutex(&mut p, 2, 0), SUCCESS);
    assert_eq!(holders(&p), 1);
    assert_eq!(p.tasks[2].inner.mutex_allocation, vec![1]);
}

#[test]
fn spin_mutex_makes_the_loser_yield_and_ask_again() {
    let mut p = process_with_tasks(2);
    sys_mutex_create(&mut p, false);
    assert_eq!(sys_mutex_lock(&mut p, 0, 0), SUCCESS);
    assert_eq!(sys_mutex_lock(&mut p, 1, 0), SUCCESS);
    assert!(status(&p, 1) == TaskStatus::Ready);
    assert_eq!(p.tasks[1].inner.mutex_need, vec![1]);
    assert_eq!(p.tasks[1].inner.mutex_allocation, vec![0]);
    // Asking again while the mutex is held records nothing more.
    assert_eq!(sys_mutex_lock(&mut p, 1, 0), SUCCESS);
    assert!(status(&p, 1) == TaskStatus::Ready);
    assert_eq!(p.tasks[1].inner.mutex_need, vec![1]);
    assert_eq!(sys_mutex_unlock(&mut p, 0, 0), SUCCESS);
    assert_eq!(sys_mutex_lock(&mut p, 1, 0), SUCCESS);
    assert!(status(&p, 1) == TaskStatus::Running);
    assert_eq!(p.tasks[1].inner.mutex_need, vec![0]);
    assert_eq!(p.tasks[1].inner.mutex_allocation, vec![1]);
    assert_eq!(p.mutex_available, vec![0]);
}

#[test]
fn contention_without_detection_never_gives_the_sentinel() {
    let mut p = process_with_tasks(2);
    sys_mutex_create(&mut p, true);
    sys_mutex_create(&mut p, true);
    assert_eq!(sys_mutex_lock(&mut p, 0, 0), SUCCESS);
    assert_eq!(sys_mutex_lock(&mut p, 1, 1), SUCCESS);
    assert_eq!(sys_mutex_lock(&mut p, 0, 1), SUCCESS);
    // With detection off even the request that closes the circle is admitted.
    assert_eq!(sys_mutex_lock(&mut p, 1, 0), SUCCESS);
    assert!(status(&p, 0) == TaskStatus::Blocked);
    assert!(status(&p, 1) == TaskStatus::Blocked);
    assert_eq!(p.tasks[0].inner.mutex_allocation, vec![1, 0]);
    assert_eq!(p.tasks[1].inner.mutex_allocation, vec![0, 1]);
}

#[test]
fn circular_wait_is_denied_and_rolled_back() {
    let mut p = process_with_tasks(2);
    assert_eq!(sys_enable_deadlock_detect(&mut p, 1), SUCCESS);
    sys_mutex_create(&mut p, true);
    sys_mutex_create(&mut p, true);
    assert_eq!(sys_mutex_lock(&mut p, 0, 0), SUCCESS);
    assert_eq!(sys_mutex_lock(&mut p, 1, 1), SUCCESS);
    // Task 0 holds mutex 0 and waits for mutex 1.
    assert_eq!(sys_mutex_lock(&mut p, 0, 1), SUCCESS);
    assert!(status(&p, 0) == TaskStatus::Blocked);
    assert_eq!(p.tasks[0].inner.mutex_need, vec![0, 1]);
    let rows_before = rows(&p);
    let available_before = p.mutex_available.clone();
    let waiters_before = (waiters(&p, 0), waiters(&p, 1));
    // Task 1 holds mutex 1 and asks for mutex 0: that would close the circle.
    assert_eq!(sys_mutex_lock(&mut p, 1, 0), -0xdead);
    assert_eq!(rows(&p), rows_before);
    assert_eq!(p.mutex_available, available_before);
    assert_eq!((waiters(&p, 0), waiters(&p, 1)), waiters_before);
    assert!(status(&p, 1) == TaskStatus::Running);
    assert_eq!(p.tasks[1].inner.mutex_need, vec![0, 0]);
    assert_eq!(p.tasks[1].inner.mutex_allocation, vec![0, 1]);
}

#[test]
fn denied_request_leaves_no_phantom_need() {
    let mut p = process_with_tasks(3);
    sys_enable_deadlock_detect(&mut p, 1);
    sys_mutex_create(&mut p, true);
    sys_mutex_create(&mut p, true);
    assert_eq!(sys_mutex_lock(&mut p, 0, 0), SUCCESS);
    assert_eq!(sys_mutex_lock(&mut p, 1, 1), SUCCESS);
    assert_eq!(sys_mutex_lock(&mut p, 0, 1), SUCCESS);
    assert_eq!(sys_mutex_lock(&mut p, 1, 0), DEADLOCK);
    assert_eq!(sys_mutex_lock(&mut p, 1, 0), DEADLOCK);
    // The same request from a task outside the circle is admitted.
    assert_eq!(sys_mutex_lock(&mut p, 2, 0), SUCCESS);
    assert!(status(&p, 2) == TaskStatus::Blocked);
    assert_eq!(p.tasks[2].inner.mutex_need, vec![1, 0]);
    // Once task 1 lets go, the circle can no longer close.
    assert_eq!(sys_mutex_unlock(&mut p, 1, 1), SUCCESS);
    assert!(status(&p, 0) == TaskStatus::Ready);
    assert_eq!(sys_mutex_lock(&mut p, 0, 1), SUCCESS);
    assert!(status(&p, 0) == TaskStatus::Running);
    assert_eq!(sys_mutex_lock(&mut p, 1, 0), SUCCESS);
    assert!(status(&p, 1) == TaskStatus::Blocked);
}

#[test]
fn detection_admits_plain_contention() {
    let mut p = process_with_tasks(2);
    sys_enable_deadlock_detect(&mut p, 1);
    sys_mutex_create(&mut p, true);
    assert_eq!(sys_mutex_lock(&mut p, 0, 0), SUCCESS);
    assert_eq!(sys_mutex_lock(&mut p, 1, 0), SUCCESS);
    assert!(status(&p, 1) == TaskStatus::Blocked);
}

#[test]
fn lock_by_the_holder_is_a_deadlock_under_detection() {
    let mut p = process_with_tasks(1);
    sys_enable_deadlock_detect(&mut p, 1);
    sys_mutex_create(&mut p, true);
    assert_eq!(sys_mutex_lock(&mut p, 0, 0), SUCCESS);
    assert_eq!(sys_mutex_lock(&mut p, 0, 0), DEADLOCK);
    assert_eq!(p.tasks[0].inner.mutex_need, vec![0]);
    assert_eq!(p.tasks[0].inner.mutex_allocation, vec![1]);
}

#[test]
fn mutexes_and_semaphores_are_checked_apart() {
    let mut p = process_with_tasks(2);
    sys_enable_deadlock_detect(&mut p, 1);
    sys_mutex_create(&mut p, true);
    sys_semaphore_create(&mut p, 1);
    assert_eq!(sys_mutex_lock(&mut p, 0, 0), SUCCESS);
    assert_eq!(sys_semaphore_down(&mut p, 1, 0), SUCCESS);
    assert_eq!(sys_semaphore_down(&mut p, 0, 0), SUCCESS);
    assert!(status(&p, 0) == TaskStatus::Blocked);
    // Across the two classes the circle is not seen.
    assert_eq!(sys_mutex_lock(&mut p, 1, 0), SUCCESS);
    assert!(status(&p, 1) == TaskStatus::Blocked);
}

#[test]
fn semaphore_gives_its_units_then_blocks() {
    for n in 0..4usize {
        let mut p = process_with_tasks(n + 2);
        assert_eq!(sys_semaphore_create(&mut p, n), 0);
        for t in 0..n {
            assert_eq!(sys_semaphore_down(&mut p, t, 0), SUCCESS);
            assert!(status(&p, t) == TaskStatus::Running);
            assert_eq!(p.semaphore_available, vec![n - t - 1]);
            assert_eq!(p.tasks[t].inner.semaphore_allocation, vec![1]);
        }
        assert_eq!(sys_semaphore_down(&mut p, n, 0), SUCCESS);
        assert!(status(&p, n) == TaskStatus::Blocked);
        assert_eq!(p.tasks[n].inner.semaphore_need, vec![1]);
        assert_eq!(p.tasks[n].inner.semaphore_allocation, vec![0]);
        assert_eq!(p.semaphore_list[0].as_ref().unwrap().count, -1);
        assert_eq!(p.semaphore_available, vec![0]);
    }
}

#[test]
fn up_hands_the_unit_to_the_longest_waiter() {
    let mut p = process_with_tasks(3);
    sys_semaphore_create(&mut p, 1);
    assert_eq!(sys_semaphore_down(&mut p, 0, 0), SUCCESS);
    assert_eq!(sys_semaphore_down(&mut p, 1, 0), SUCCESS);
    assert_eq!(sys_semaphore_down(&mut p, 2, 0), SUCCESS);
    assert_eq!(p.semaphore_list[0].as_ref().unwrap().count, -2);
    assert_eq!(sys_semaphore_up(&mut p, 0, 0), SUCCESS);
    assert!(status(&p, 1) == TaskStatus::Ready);
    assert!(status(&p, 2) == TaskStatus::Blocked);
    assert_eq!(p.tasks[0].inner.semaphore_allocation, vec![0]);
    assert_eq!(p.tasks[1].inner.semaphore_allocation, vec![1]);
    assert_eq!(p.tasks[1].inner.semaphore_need, vec![0]);
    assert_eq!(p.tasks[2].inner.semaphore_need, vec![1]);
    assert_eq!(p.semaphore_available, vec![0]);
    assert_eq!(p.semaphore_list[0].as_ref().unwrap().count, -1);
    assert_eq!(sys_semaphore_up(&mut p, 1, 0), SUCCESS);
    assert!(status(&p, 2) == TaskStatus::Ready);
    assert_eq!(sys_semaphore_up(&mut p, 2, 0), SUCCESS);
    assert_eq!(p.semaphore_available, vec![1]);
    assert_eq!(p.semaphore_list[0].as_ref().unwrap().count, 1);
}

#[test]
fn one_task_may_hold_several_units() {
    let mut p = process_with_tasks(1);
    sys_semaphore_create(&mut p, 3);
    assert_eq!(sys_semaphore_down(&mut p, 0, 0), SUCCESS);
    assert_eq!(sys_semaphore_down(&mut p, 0, 0), SUCCESS);
    assert_eq!(p.tasks[0].inner.semaphore_allocation, vec![2]);
    assert_eq!(p.semaphore_available, vec![1]);
    assert_eq!(sys_semaphore_up(&mut p, 0, 0), SUCCESS);
    assert_eq!(sys_semaphore_up(&mut p, 0, 0), SUCCESS);
    assert_eq!(sys_semaphore_up(&mut p, 0, 0), INVALID);
    assert_eq!(p.semaphore_available, vec![3]);
}

#[test]
fn down_by_a_task_that_waits_already_is_invalid() {
    let mut p = process_with_tasks(1);
    sys_semaphore_create(&mut p, 0);
    assert_eq!(sys_semaphore_down(&mut p, 0, 0), SUCCESS);
    assert_eq!(sys_semaphore_down(&mut p, 0, 0), INVALID);
    assert_eq!(p.tasks[0].inner.semaphore_need, vec![1]);
    assert_eq!(p.semaphore_list[0].as_ref().unwrap().count, -1);
}

#[test]
fn semaphore_deadlock_is_denied_and_rolled_back() {
    let mut p = process_with_tasks(2);
    sys_enable_deadlock_detect(&mut p, 1);
    sys_semaphore_create(&mut p, 1);
    sys_semaphore_create(&mut p, 1);
    assert_eq!(sys_semaphore_down(&mut p, 0, 0), SUCCESS);
    assert_eq!(sys_semaphore_down(&mut p, 1, 1), SUCCESS);
    assert_eq!(sys_semaphore_down(&mut p, 0, 1), SUCCESS);
    assert!(status(&p, 0) == TaskStatus::Blocked);
    let before = rows(&p);
    assert_eq!(sys_semaphore_down(&mut p, 1, 0), DEADLOCK);
    assert_eq!(rows(&p), before);
    assert_eq!(p.semaphore_available, vec![0, 0]);
    assert_eq!(p.semaphore_list[0].as_ref().unwrap().count, 0);
    assert_eq!(sys_semaphore_up(&mut p, 1, 1), SUCCESS);
    assert!(status(&p, 0) == TaskStatus::Ready);
    assert_eq!(sys_semaphore_down(&mut p, 1, 0), SUCCESS);
}

#[test]
fn down_on_empty_semaphore_is_a_deadlock_when_nobody_can_return() {
    let mut p = process_with_tasks(1);
    sys_enable_deadlock_detect(&mut p, 1);
    sys_semaphore_create(&mut p, 0);
    assert_eq!(sys_semaphore_down(&mut p, 0, 0), DEADLOCK);
    assert_eq!(p.tasks[0].inner.semaphore_need, vec![0]);
    sys_enable_deadlock_detect(&mut p, 0);
    assert_eq!(sys_semaphore_down(&mut p, 0, 0), SUCCESS);
    assert!(status(&p, 0) == TaskStatus::Blocked);
}

#[test]
fn signal_without_waiter_changes_nothing() {
    let mut p = process_with_tasks(1);
    sys_mutex_create(&mut p, true);
    sys_condvar_create(&mut p);
    assert_eq!(sys_mutex_lock(&mut p, 0, 0), SUCCESS);
    assert_eq!(sys_condvar_signal(&mut p, 0), SUCCESS);
    assert!(p.condvar_list[0].as_ref().unwrap().wait_queue.is_empty());
    assert!(status(&p, 0) == TaskStatus::Running);
    // The lost signal does not let the next wait through.
    assert_eq!(sys_condvar_wait(&mut p, 0, 0, 0), SUCCESS);
    assert!(status(&p, 0) == TaskStatus::Blocked);
    assert_eq!(
        p.condvar_list[0].as_ref().unwrap().wait_queue.iter().copied().collect::<Vec<usize>>(),
        vec![0]
    );
}

#[test]
fn wait_releases_the_mutex_and_signal_wakes_in_order() {
    let mut p = process_with_tasks(3);
    sys_mutex_create(&mut p, true);
    sys_condvar_create(&mut p);
    assert_eq!(sys_mutex_lock(&mut p, 0, 0), SUCCESS);
    assert_eq!(sys_mutex_lock(&mut p, 1, 0), SUCCESS);
    assert_eq!(sys_condvar_wait(&mut p, 0, 0, 0), SUCCESS);
    assert!(status(&p, 0) == TaskStatus::Blocked);
    assert!(status(&p, 1) == TaskStatus::Ready);
    assert_eq!(p.mutex_available, vec![1]);
    assert_eq!(p.tasks[0].inner.mutex_allocation, vec![0]);
    assert!(!p.mutex_list[0].as_ref().unwrap().locked());
    assert_eq!(sys_mutex_lock(&mut p, 1, 0), SUCCESS);
    assert_eq!(sys_condvar_wait(&mut p, 1, 0, 0), SUCCESS);
    assert_eq!(sys_mutex_lock(&mut p, 2, 0), SUCCESS);
    assert_eq!(sys_condvar_signal(&mut p, 0), SUCCESS);
    assert!(status(&p, 0) == TaskStatus::Ready);
    assert!(status(&p, 1) == TaskStatus::Blocked);
    // The woken task takes its mutex back: it is held, so the task queues.
    assert_eq!(acquire_mutex(&mut p, 0, 0), SUCCESS);
    assert!(status(&p, 0) == TaskStatus::Blocked);
    assert_eq!(waiters(&p, 0), vec![0]);
    assert_eq!(sys_mutex_unlock(&mut p, 2, 0), SUCCESS);
    assert_eq!(acquire_mutex(&mut p, 0, 0), SUCCESS);
    assert!(status(&p, 0) == TaskStatus::Running);
    assert_eq!(p.tasks[0].inner.mutex_allocation, vec![1]);
    assert_eq!(sys_condvar_signal(&mut p, 0), SUCCESS);
    assert!(status(&p, 1) == TaskStatus::Ready);
    assert_eq!(sys_condvar_signal(&mut p, 0), SUCCESS);
}

#[test]
fn wait_without_holding_the_mutex_is_invalid() {
    let mut p = process_with_tasks(2);
    sys_mutex_create(&mut p, true);
    sys_condvar_create(&mut p);
    assert_eq!(sys_condvar_wait(&mut p, 0, 0, 0), INVALID);
    assert_eq!(sys_mutex_lock(&mut p, 1, 0), SUCCESS);
    assert_eq!(sys_condvar_wait(&mut p, 0, 0, 0), INVALID);
    assert_eq!(sys_condvar_wait(&mut p, 1, 1, 0), INVALID);
    assert_eq!(sys_condvar_wait(&mut p, 1, 0, 1), INVALID);
    assert!(p.condvar_list[0].as_ref().unwrap().wait_queue.is_empty());
    assert!(p.mutex_list[0].as_ref().unwrap().locked());
}

#[test]
fn sleep_blocks_until_the_timer_fires() {
    let mut p = process_with_tasks(3);
    assert_eq!(sys_sleep(&mut p, 0, 1000, 50), 0);
    assert_eq!(sys_sleep(&mut p, 1, 1000, 200), 0);
    assert!(status(&p, 0) == TaskStatus::Blocked);
    assert_eq!(p.tasks[0].inner.wake_at, Some(1050));
    assert_eq!(p.tasks[1].inner.wake_at, Some(1200));
    assert_eq!(p.tasks[2].inner.wake_at, None);
    p.check_timer(1049);
    assert!(status(&p, 0) == TaskStatus::Blocked);
    p.check_timer(1050);
    assert!(status(&p, 0) == TaskStatus::Ready);
    assert_eq!(p.tasks[0].inner.wake_at, None);
    assert!(status(&p, 1) == TaskStatus::Blocked);
    p.check_timer(5000);
    assert!(status(&p, 1) == TaskStatus::Ready);
    assert_eq!(p.tasks[1].inner.wake_at, None);
    assert!(status(&p, 2) == TaskStatus::Ready);
}

#[test]
fn sleep_of_zero_is_due_at_once() {
    let mut p = process_with_tasks(1);
    assert_eq!(sys_sleep(&mut p, 0, 7, 0), SUCCESS);
    assert_eq!(p.tasks[0].inner.wake_at, Some(7));
    p.check_timer(7);
    assert!(status(&p, 0) == TaskStatus::Ready);
}

#[test]
fn detector_reads_without_writing() {
    let mut p = process_with_tasks(2);
    sys_mutex_create(&mut p, true);
    sys_semaphore_create(&mut p, 0);
    assert_eq!(sys_mutex_lock(&mut p, 0, 0), SUCCESS);
    let before = rows(&p);
    assert!(!p.detect_mut_deadlock(1, 0));
    assert!(p.detect_mut_deadlock(0, 0));
    assert!(p.detect_sema_deadlock(1, 0));
    assert_eq!(rows(&p), before);
}

#[test]
fn ledger_moves_on_the_process() {
    let mut p = process_with_tasks(1);
    sys_mutex_create(&mut p, true);
    sys_semaphore_create(&mut p, 2);
    p.request_mutex(0, 0);
    assert_eq!(p.tasks[0].inner.mutex_need, vec![1]);
    p.grant_mutex(0, 0);
    assert_eq!(p.tasks[0].inner.mutex_need, vec![0]);
    assert_eq!(p.tasks[0].inner.mutex_allocation, vec![1]);
    assert_eq!(p.mutex_available, vec![0]);
    p.return_mutex(0, 0);
    assert_eq!(p.tasks[0].inner.mutex_allocation, vec![0]);
    assert_eq!(p.mutex_available, vec![1]);
    p.request_sema(0, 0);
    p.grant_sema(0, 0);
    assert_eq!(p.tasks[0].inner.semaphore_allocation, vec![1]);
    assert_eq!(p.semaphore_available, vec![1]);
    p.return_sema(0, 0);
    assert_eq!(p.semaphore_available, vec![2]);
    p.adjust_mutex_available(2, 4, true);
    assert_eq!(p.mutex_available, vec![1, 0, 4]);
    p.adjust_sema_available(0, 2, false);
    assert_eq!(p.semaphore_available, vec![0]);
    p.reset_mutex_ledger(1, 1);
    assert_eq!(p.tasks[0].inner.mutex_allocation, vec![0, 0]);
    assert_eq!(p.mutex_available, vec![1, 1, 4]);
    p.reset_semaphore_ledger(0, 5);
    assert_eq!(p.tasks[0].inner.semaphore_need, vec![0]);
    assert_eq!(p.semaphore_available, vec![5]);
    p.set_status(0, TaskStatus::Running);
    assert!(status(&p, 0) == TaskStatus::Running);
    p.set_timer(0, 9);
    assert_eq!(p.tasks[0].inner.wake_at, Some(9));
    assert!(status(&p, 0) == TaskStatus::Blocked);
}
