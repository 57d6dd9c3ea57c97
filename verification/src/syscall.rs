//! The requests that tasks make of the synchronization layer.
//!
//! Every request is one step on the state of the process: it reads and
//! changes the ledger and the primitives, and marks the tasks that have to be
//! suspended or made runnable. It never waits. What the scheduler has to do
//! afterwards is told by the status of the tasks.
use crate::circulation::{
    admitted, circulation, granted, lemma_grant_step, lemma_held_covers_task, lemma_request_step,
    lemma_reset_step, lemma_return_step, requested, reset, returned,
};
use crate::condvar::Condvar;
use crate::detect::safe_state;
use crate::ledger::{entry, read_entry};
use crate::mutex::{LockOutcome, Mutex};
use crate::process::ProcessControlBlock;
use crate::semaphore::Semaphore;
use crate::task::TaskStatus;
use vstd::prelude::*;

verus! {

/// The result of a request that was carried out.
pub const SUCCESS: isize = 0;

/// The result of a request with a bad argument, or made in a state in which
/// it cannot be carried out.
pub const INVALID: isize = -1;

/// The result of a request that was denied because admitting it would leave
/// the tasks unable to all run to their end.
pub const DEADLOCK: isize = -0xdead;

/// `h` is the handle that a creation takes in `list`: the first empty slot,
/// or the place behind the last slot if none is empty.
pub open spec fn first_free<T>(list: Seq<Option<T>>, h: int) -> bool {
    &&& 0 <= h <= list.len()
    &&& forall|i: int| 0 <= i < h ==> (#[trigger] list[i]).is_some()
    &&& h < list.len() ==> list[h].is_none()
}

/// Finds the handle that a creation takes in `list`.
pub fn find_free<T>(list: &Vec<Option<T>>) -> (h: usize)
    ensures
        first_free(list@, h as int),
{
    let mut h: usize = 0;
    while h < list.len()
        invariant
            h <= list@.len(),
            forall|i: int| 0 <= i < h ==> (#[trigger] list@[i]).is_some(),
        decreases list@.len() - h,
    {
        if list[h].is_none() {
            return h;
        }
        h += 1;
    }
    h
}

/// `after` is `before` with slot `h` filled, behind the end if `h` is the
/// length of `before`; the other slots are as they were.
pub open spec fn placed<T>(before: Seq<Option<T>>, after: Seq<Option<T>>, h: int) -> bool {
    &&& after.len() == if h < before.len() {
        before.len() as int
    } else {
        h + 1
    }
    &&& forall|k: int| 0 <= k < before.len() && k != h ==> #[trigger] after[k] == before[k]
    &&& 0 <= h < after.len() && after[h].is_some()
}

/// Setting the detection switch to `enabled` in `before` gives `after` and
/// the result `ret`: for 0 and 1 `SUCCESS`, with detection off and on; for any
/// other value `INVALID`, with the switch as it was. Nothing else changes.
pub open spec fn enable_detect_step(
    before: &ProcessControlBlock,
    after: &ProcessControlBlock,
    enabled: usize,
    ret: isize,
) -> bool {
    &&& if enabled <= 1 {
        ret == SUCCESS && after.deadlock_det == (enabled == 1)
    } else {
        ret == INVALID && after.deadlock_det == before.deadlock_det
    }
    &&& after.tasks == before.tasks
    &&& after.mutex_list == before.mutex_list
    &&& after.semaphore_list == before.semaphore_list
    &&& after.condvar_list == before.condvar_list
    &&& after.mutex_available == before.mutex_available
    &&& after.semaphore_available == before.semaphore_available
}

/// Switches deadlock detection off (`enabled` is 0) or on (1) for the whole
/// process. Any other value is refused and changes nothing.
pub fn sys_enable_deadlock_detect(process: &mut ProcessControlBlock, enabled: usize) -> (ret: isize)
    ensures
        enable_detect_step(old(process), final(process), enabled, ret),
        old(process).wf() ==> final(process).wf(),
{
    let ret = if enabled == 0 {
        process.deadlock_det = false;
        SUCCESS
    } else if enabled == 1 {
        process.deadlock_det = true;
        SUCCESS
    } else {
        INVALID
    };
    proof {
        if old(process).wf() {
            process.lemma_wf_kept(old(process));
        }
    }
    ret
}

/// Creating a condition variable in `before` gives `after` and the handle
/// `ret`: the first free slot holds a condition variable on which nobody
/// waits, and nothing else has changed.
pub open spec fn condvar_create_step(
    before: &ProcessControlBlock,
    after: &ProcessControlBlock,
    ret: isize,
) -> bool {
    &&& first_free(before.condvar_list@, ret as int)
    &&& placed(before.condvar_list@, after.condvar_list@, ret as int)
    &&& after.condvar_at(ret as int).wait_queue@.len() == 0
    &&& after.deadlock_det == before.deadlock_det
    &&& after.tasks == before.tasks
    &&& after.mutex_list == before.mutex_list
    &&& after.semaphore_list == before.semaphore_list
    &&& after.mutex_available == before.mutex_available
    &&& after.semaphore_available == before.semaphore_available
}

/// Creates a condition variable and returns its handle: the first empty slot
/// is taken, or a new slot is added.
pub fn sys_condvar_create(process: &mut ProcessControlBlock) -> (ret: isize)
    requires
        old(process).wf(),
        old(process).condvar_list@.len() < isize::MAX,
    ensures
        final(process).wf(),
        condvar_create_step(old(process), final(process), ret),
{
    let h: usize = find_free(&process.condvar_list);
    if h < process.condvar_list.len() {
        process.condvar_list.set(h, Some(Condvar::new()));
    } else {
        process.condvar_list.push(Some(Condvar::new()));
    }
    proof {
        process.lemma_mutex_slots_kept(old(process));
        process.lemma_semaphore_slots_kept(old(process));
        assert forall|c: int|
            0 <= c < process.condvar_list@.len() && (#[trigger] process.condvar_list@[c]).is_some()
            implies process.known_tasks(process.condvar_list@[c].unwrap().wait_queue@) by {
            if c != h {
                assert(old(process).condvar_list@[c].is_some());
            }
        }
    }
    h as isize
}

/// Creating a mutex in `before` gives `after` and the handle `ret`: the first
/// free slot holds a free mutex of the strategy asked for, without waiters;
/// in the mutex ledger the handle starts afresh with one free instance; and
/// nothing else has changed.
pub open spec fn mutex_create_step(
    before: &ProcessControlBlock,
    after: &ProcessControlBlock,
    blocking: bool,
    ret: isize,
) -> bool {
    &&& first_free(before.mutex_list@, ret as int)
    &&& placed(before.mutex_list@, after.mutex_list@, ret as int)
    &&& !after.mutex_at(ret as int).is_locked()
    &&& after.mutex_at(ret as int).is_blocking() == blocking
    &&& after.mutex_at(ret as int).waiters().len() == 0
    &&& after.mutex_state() == reset(before.mutex_state(), ret as int, 1)
    &&& after.semaphore_state() == before.semaphore_state()
    &&& after.statuses() == before.statuses()
    &&& after.wake_times() == before.wake_times()
    &&& after.same_task_ids(before)
    &&& after.deadlock_det == before.deadlock_det
    &&& after.semaphore_list == before.semaphore_list
    &&& after.condvar_list == before.condvar_list
}

/// Creates a mutex, of the blocking strategy if `blocking` and polling
/// otherwise, and returns its handle: the first empty slot is taken, or a new
/// slot is added. In the ledger the handle starts afresh: one free instance,
/// and every task's rows hold a zero for it.
pub fn sys_mutex_create(process: &mut ProcessControlBlock, blocking: bool) -> (ret: isize)
    requires
        old(process).wf(),
        old(process).mutex_list@.len() < isize::MAX,
    ensures
        final(process).wf(),
        mutex_create_step(old(process), final(process), blocking, ret),
{
    let h: usize = find_free(&process.mutex_list);
    if h < process.mutex_list.len() {
        process.mutex_list.set(h, Some(Mutex::new(blocking)));
    } else {
        process.mutex_list.push(Some(Mutex::new(blocking)));
    }
    process.reset_mutex_ledger(h, 1);
    proof {
        let s0 = old(process).mutex_state();
        lemma_reset_step(s0, h as int, 1, old(process).mutex_list@.len() as int);
        process.lemma_semaphore_slots_kept(old(process));
        process.lemma_condvars_kept(old(process));
        assert forall|k: int|
            0 <= k < process.mutex_list@.len() implies #[trigger] process.mutex_slot_wf(k) by {
            if k != h {
                assert(old(process).mutex_slot_wf(k));
                assert(entry(process.mutex_available@, k) == entry(s0.available, k));
            }
        }
    }
    h as isize
}

/// Creating a semaphore with `res_count` units in `before` gives `after` and
/// the handle `ret`: the first free slot holds a semaphore whose counter is
/// `res_count`, without waiters; in the semaphore ledger the handle starts
/// afresh with `res_count` free units; and nothing else has changed.
pub open spec fn semaphore_create_step(
    before: &ProcessControlBlock,
    after: &ProcessControlBlock,
    res_count: usize,
    ret: isize,
) -> bool {
    &&& first_free(before.semaphore_list@, ret as int)
    &&& placed(before.semaphore_list@, after.semaphore_list@, ret as int)
    &&& after.semaphore_at(ret as int).count == res_count
    &&& after.semaphore_at(ret as int).wait_queue@.len() == 0
    &&& after.semaphore_state() == reset(before.semaphore_state(), ret as int, res_count)
    &&& after.mutex_state() == before.mutex_state()
    &&& after.statuses() == before.statuses()
    &&& after.wake_times() == before.wake_times()
    &&& after.same_task_ids(before)
    &&& after.deadlock_det == before.deadlock_det
    &&& after.mutex_list == before.mutex_list
    &&& after.condvar_list == before.condvar_list
}

/// Creates a semaphore with `res_count` units and returns its handle: the
/// first empty slot is taken, or a new slot is added. In the ledger the handle
/// starts afresh: `res_count` free units, and every task's rows hold a zero
/// for it.
pub fn sys_semaphore_create(process: &mut ProcessControlBlock, res_count: usize) -> (ret: isize)
    requires
        old(process).wf(),
        old(process).semaphore_list@.len() < isize::MAX,
        res_count <= isize::MAX,
    ensures
        final(process).wf(),
        semaphore_create_step(old(process), final(process), res_count, ret),
{
    let h: usize = find_free(&process.semaphore_list);
    if h < process.semaphore_list.len() {
        process.semaphore_list.set(h, Some(Semaphore::new(res_count)));
    } else {
        process.semaphore_list.push(Some(Semaphore::new(res_count)));
    }
    process.reset_semaphore_ledger(h, res_count);
    proof {
        let s0 = old(process).semaphore_state();
        let s1 = process.semaphore_state();
        lemma_reset_step(s0, h as int, res_count, old(process).semaphore_list@.len() as int);
        process.lemma_mutex_slots_kept(old(process));
        process.lemma_condvars_kept(old(process));
        assert forall|k: int|
            0 <= k < process.semaphore_list@.len() implies #[trigger] process.semaphore_slot_wf(
            k,
        ) by {
            if k != h {
                assert(old(process).semaphore_slot_wf(k));
                assert(entry(s1.available, k) == entry(s0.available, k));
                if old(process).semaphore_list@[k].is_some() {
                    let queue = old(process).semaphore_list@[k].unwrap().wait_queue@;
                    assert forall|i: int| 0 <= i < queue.len() implies entry(
                        s1.need[#[trigger] queue[i] as int],
                        k,
                    ) >= 1 by {
                        let w = queue[i] as int;
                        assert(entry(s1.need[w], k) == entry(s0.need[w], k));
                    }
                }
            }
        }
    }
    h as isize
}

/// What admitting the request of task `tid` for mutex `h` does to the process
/// `before`. The request is recorded unless one is outstanding. A free mutex
/// is taken: the need becomes a holding and the caller runs on. A held mutex
/// stays as it is: the need stays outstanding, and the caller is queued and
/// blocked if the mutex is of the blocking strategy, and ready to poll again
/// if not.
pub open spec fn mutex_acquired(
    before: &ProcessControlBlock,
    after: &ProcessControlBlock,
    tid: int,
    h: int,
) -> bool {
    let s1 = admitted(before.mutex_state(), tid, h);
    let m0 = before.mutex_at(h);
    let m1 = after.mutex_at(h);
    &&& after.touched_mutex(before, h)
    &&& m1.is_locked()
    &&& if !m0.is_locked() {
        &&& after.mutex_state() == granted(s1, tid, h)
        &&& m1.waiters() == m0.waiters()
        &&& after.statuses() == before.statuses().update(tid, TaskStatus::Running)
    } else if m0.is_blocking() {
        &&& after.mutex_state() == s1
        &&& m1.waiters() == m0.waiters().push(tid as usize)
        &&& after.statuses() == before.statuses().update(tid, TaskStatus::Blocked)
    } else {
        &&& after.mutex_state() == s1
        &&& m1.waiters() == m0.waiters()
        &&& after.statuses() == before.statuses().update(tid, TaskStatus::Ready)
    }
}

/// Carrying out an admitted request of task `tid` for mutex `h` in `before`
/// gives `after` and the result `ret`: `INVALID` and no change if the handle
/// names no mutex, and `SUCCESS` with the request carried out otherwise.
pub open spec fn mutex_acquire_step(
    before: &ProcessControlBlock,
    after: &ProcessControlBlock,
    tid: int,
    h: int,
    ret: isize,
) -> bool {
    if !before.mutex_live(h) {
        ret == INVALID && *after == *before
    } else {
        ret == SUCCESS && mutex_acquired(before, after, tid, h)
    }
}

/// Carries out a request of task `tid` for mutex `mutex_id` that needs no
/// more admission: a first request that has passed the detector, the request
/// of a task that asks again after it was woken or after it yielded, or the
/// request by which a task that was signalled takes its mutex back. Returns
/// `INVALID`, and changes nothing, if the handle names no mutex.
pub fn acquire_mutex(process: &mut ProcessControlBlock, tid: usize, mutex_id: usize) -> (ret: isize)
    requires
        old(process).wf(),
        tid < old(process).tasks@.len(),
    ensures
        final(process).wf(),
        mutex_acquire_step(old(process), final(process), tid as int, mutex_id as int, ret),
{
    if mutex_id >= process.mutex_list.len() || process.mutex_list[mutex_id].is_none() {
        return INVALID;
    }
    let ghost h = mutex_id as int;
    let ghost t = tid as int;
    let ghost n = process.mutex_list@.len() as int;
    let ghost s0 = process.mutex_state();
    let ghost s1 = admitted(s0, t, h);
    proof {
        assert(old(process).mutex_slot_wf(h));
        if entry(s0.need[t], h) == 0 {
            lemma_request_step(s0, t, h, n);
        }
    }
    if read_entry(&process.tasks[tid].inner.mutex_need, mutex_id) == 0 {
        process.request_mutex(tid, mutex_id);
    }
    if process.mutex_available[mutex_id] > 0 {
        proof {
            lemma_held_covers_task(s1.allocation, t, h);
            lemma_grant_step(s1, t, h, n);
        }
        process.grant_mutex(tid, mutex_id);
    }
    let outcome = match &mut process.mutex_list[mutex_id] {
        Some(m) => m.lock(tid),
        None => vstd::pervasive::unreached(),
    };
    let status = match outcome {
        LockOutcome::Acquired => TaskStatus::Running,
        LockOutcome::Queued => TaskStatus::Blocked,
        LockOutcome::Busy => TaskStatus::Ready,
    };
    process.set_status(tid, status);
    proof {
        process.lemma_condvars_kept(old(process));
        process.lemma_mutex_step_wf(old(process), h);
    }
    SUCCESS
}

/// The detector denies a first request of task `tid` for mutex `h`:
/// detection is switched on, and with the request recorded the mutex ledger
/// would not be safe.
pub open spec fn mutex_denied(before: &ProcessControlBlock, tid: int, h: int) -> bool {
    &&& before.deadlock_det
    &&& entry(before.mutex_state().need[tid], h) == 0
    &&& !safe_state(requested(before.mutex_state(), tid, h))
}

/// A request of task `tid` for mutex `h` in `before` gives `after` and the
/// result `ret`: `INVALID` and no change if the handle names no mutex;
/// `DEADLOCK` and no change if the detector denies the request; and `SUCCESS`
/// with the request carried out otherwise.
pub open spec fn mutex_lock_step(
    before: &ProcessControlBlock,
    after: &ProcessControlBlock,
    tid: int,
    h: int,
    ret: isize,
) -> bool {
    if !before.mutex_live(h) {
        ret == INVALID && *after == *before
    } else if mutex_denied(before, tid, h) {
        ret == DEADLOCK && *after == *before
    } else {
        ret == SUCCESS && mutex_acquired(before, after, tid, h)
    }
}

/// Task `tid` asks for mutex `mutex_id`.
///
/// Returns `INVALID` if the handle names no mutex, and `DEADLOCK` if the
/// detector denies the request; in both cases nothing has changed. Otherwise
/// the request is admitted and `SUCCESS` is returned. The caller's status
/// then says how it goes on: running, it holds the mutex; blocked, it has
/// been queued and is to be suspended; ready, it is to yield. A task that was
/// suspended or has yielded makes the same request again when it next runs.
pub fn sys_mutex_lock(process: &mut ProcessControlBlock, tid: usize, mutex_id: usize) -> (ret:
    isize)
    requires
        old(process).wf(),
        tid < old(process).tasks@.len(),
    ensures
        final(process).wf(),
        mutex_lock_step(old(process), final(process), tid as int, mutex_id as int, ret),
{
    if mutex_id >= process.mutex_list.len() || process.mutex_list[mutex_id].is_none() {
        return INVALID;
    }
    if process.deadlock_det && read_entry(&process.tasks[tid].inner.mutex_need, mutex_id) == 0 {
        if process.detect_mut_deadlock(tid, mutex_id) {
            return DEADLOCK;
        }
    }
    acquire_mutex(process, tid, mutex_id)
}

/// What the release of mutex `h` by task `tid` does to the process `before`:
/// the holding becomes a free instance, the mutex is no longer held, and the
/// longest-waiting task, if there is one, leaves the queue and is ready.
pub open spec fn mutex_released(
    before: &ProcessControlBlock,
    after: &ProcessControlBlock,
    tid: int,
    h: int,
) -> bool {
    let m0 = before.mutex_at(h);
    let m1 = after.mutex_at(h);
    &&& after.touched_mutex(before, h)
    &&& after.mutex_state() == returned(before.mutex_state(), tid, h)
    &&& !m1.is_locked()
    &&& if m0.waiters().len() > 0 {
        &&& m1.waiters() == m0.waiters().drop_first()
        &&& after.statuses() == before.statuses().update(m0.waiters()[0] as int, TaskStatus::Ready)
    } else {
        &&& m1.waiters() == m0.waiters()
        &&& after.statuses() == before.statuses()
    }
}

/// Task `tid` holds mutex `h`.
pub open spec fn holds_mutex(before: &ProcessControlBlock, tid: int, h: int) -> bool {
    before.mutex_live(h) && entry(before.mutex_state().allocation[tid], h) >= 1
}

/// A release of mutex `h` by task `tid` in `before` gives `after` and the
/// result `ret`: `INVALID` and no change if the task does not hold such a
/// mutex, and `SUCCESS` with the mutex released otherwise.
pub open spec fn mutex_unlock_step(
    before: &ProcessControlBlock,
    after: &ProcessControlBlock,
    tid: int,
    h: int,
    ret: isize,
) -> bool {
    if !holds_mutex(before, tid, h) {
        ret == INVALID && *after == *before
    } else {
        ret == SUCCESS && mutex_released(before, after, tid, h)
    }
}

/// Task `tid` releases mutex `mutex_id`.
///
/// Returns `INVALID`, and changes nothing, if the handle names no mutex or
/// the caller does not hold it. Otherwise the mutex is released and `SUCCESS`
/// is returned; a waiter that was taken off the queue asks for the mutex again
/// when it next runs.
pub fn sys_mutex_unlock(process: &mut ProcessControlBlock, tid: usize, mutex_id: usize) -> (ret:
    isize)
    requires
        old(process).wf(),
        tid < old(process).tasks@.len(),
    ensures
        final(process).wf(),
        mutex_unlock_step(old(process), final(process), tid as int, mutex_id as int, ret),
{
    if mutex_id >= process.mutex_list.len() || process.mutex_list[mutex_id].is_none() {
        return INVALID;
    }
    if read_entry(&process.tasks[tid].inner.mutex_allocation, mutex_id) == 0 {
        return INVALID;
    }
    let ghost h = mutex_id as int;
    let ghost s0 = process.mutex_state();
    proof {
        assert(old(process).mutex_slot_wf(h));
        lemma_held_covers_task(s0.allocation, tid as int, h);
        lemma_return_step(s0, tid as int, h, process.mutex_list@.len() as int);
    }
    process.return_mutex(tid, mutex_id);
    let woken = match &mut process.mutex_list[mutex_id] {
        Some(m) => m.unlock(),
        None => vstd::pervasive::unreached(),
    };
    if let Some(w) = woken {
        process.set_status(w, TaskStatus::Ready);
    }
    proof {
        process.lemma_condvars_kept(old(process));
        process.lemma_mutex_step_wf(old(process), h);
    }
    SUCCESS
}

/// Task `tid` cannot ask for a unit of semaphore `h`: the handle names no
/// semaphore, or the task waits for a unit of it already.
pub open spec fn down_refused(before: &ProcessControlBlock, tid: int, h: int) -> bool {
    !before.semaphore_live(h) || entry(before.semaphore_state().need[tid], h) >= 1
}

/// The detector denies the request of task `tid` for a unit of semaphore
/// `h`: detection is switched on, and with the request recorded the
/// semaphore ledger would not be safe.
pub open spec fn sema_denied(before: &ProcessControlBlock, tid: int, h: int) -> bool {
    before.deadlock_det && !safe_state(requested(before.semaphore_state(), tid, h))
}

/// What admitting the request of task `tid` for a unit of semaphore `h` does
/// to the process `before`. The counter goes down by one. If a unit is free
/// the request becomes a holding and the caller runs on; if none is, the
/// request stays outstanding and the caller is queued and blocked.
pub open spec fn sema_taken(
    before: &ProcessControlBlock,
    after: &ProcessControlBlock,
    tid: int,
    h: int,
) -> bool {
    let s1 = requested(before.semaphore_state(), tid, h);
    let sem0 = before.semaphore_at(h);
    let sem1 = after.semaphore_at(h);
    &&& after.touched_semaphore(before, h)
    &&& sem1.count == sem0.count - 1
    &&& if sem0.count > 0 {
        &&& after.semaphore_state() == granted(s1, tid, h)
        &&& sem1.wait_queue@ == sem0.wait_queue@
        &&& after.statuses() == before.statuses().update(tid, TaskStatus::Running)
    } else {
        &&& after.semaphore_state() == s1
        &&& sem1.wait_queue@ == sem0.wait_queue@.push(tid as usize)
        &&& after.statuses() == before.statuses().update(tid, TaskStatus::Blocked)
    }
}

/// A request of task `tid` for a unit of semaphore `h` in `before` gives
/// `after` and the result `ret`: `INVALID` and no change if the request is
/// refused; `DEADLOCK` and no change if the detector denies it; and `SUCCESS`
/// with the request carried out otherwise.
pub open spec fn semaphore_down_step(
    before: &ProcessControlBlock,
    after: &ProcessControlBlock,
    tid: int,
    h: int,
    ret: isize,
) -> bool {
    if down_refused(before, tid, h) {
        ret == INVALID && *after == *before
    } else if sema_denied(before, tid, h) {
        ret == DEADLOCK && *after == *before
    } else {
        ret == SUCCESS && sema_taken(before, after, tid, h)
    }
}

/// Task `tid` asks for one unit of semaphore `sem_id`.
///
/// Returns `INVALID` if the handle names no semaphore or the caller waits for
/// a unit of it already, and `DEADLOCK` if the detector denies the request; in
/// these cases nothing has changed. Otherwise the request is admitted and
/// `SUCCESS` is returned. The caller's status then says how it goes on:
/// running, it holds the unit; blocked, it has been queued and is to be
/// suspended, and it holds the unit when an `up` has woken it.
pub fn sys_semaphore_down(process: &mut ProcessControlBlock, tid: usize, sem_id: usize) -> (ret:
    isize)
    requires
        old(process).wf(),
        tid < old(process).tasks@.len(),
    ensures
        final(process).wf(),
        semaphore_down_step(old(process), final(process), tid as int, sem_id as int, ret),
{
    if sem_id >= process.semaphore_list.len() || process.semaphore_list[sem_id].is_none() {
        return INVALID;
    }
    if read_entry(&process.tasks[tid].inner.semaphore_need, sem_id) != 0 {
        return INVALID;
    }
    if process.deadlock_det {
        if process.detect_sema_deadlock(tid, sem_id) {
            return DEADLOCK;
        }
    }
    let ghost h = sem_id as int;
    let ghost t = tid as int;
    let ghost n = process.semaphore_list@.len() as int;
    let ghost s0 = process.semaphore_state();
    let ghost s1 = requested(s0, t, h);
    let ghost queue = process.semaphore_at(h).wait_queue@;
    proof {
        assert(old(process).semaphore_slot_wf(h));
        ProcessControlBlock::lemma_queue_bounded(queue, process.tasks@.len() as int);
        lemma_request_step(s0, t, h, n);
        assert forall|i: int| 0 <= i < queue.len() implies queue[i] != tid by {
            assert(entry(s0.need[queue[i] as int], h) >= 1);
        }
    }
    process.request_sema(tid, sem_id);
    if process.semaphore_available[sem_id] > 0 {
        proof {
            lemma_held_covers_task(s1.allocation, t, h);
            lemma_grant_step(s1, t, h, n);
        }
        process.grant_sema(tid, sem_id);
    }
    let blocked = match &mut process.semaphore_list[sem_id] {
        Some(sem) => sem.down(tid),
        None => vstd::pervasive::unreached(),
    };
    process.set_status(
        tid,
        if blocked {
            TaskStatus::Blocked
        } else {
            TaskStatus::Running
        },
    );
    proof {
        let s2 = process.semaphore_state();
        let after = process.semaphore_at(h).wait_queue@;
        assert forall|i: int| 0 <= i < after.len() implies entry(
            s2.need[#[trigger] after[i] as int],
            h,
        ) >= 1 by {
            if i < queue.len() {
                assert(after[i] == queue[i]);
                assert(entry(s0.need[queue[i] as int], h) >= 1);
            }
        }
        process.lemma_semaphore_step_wf(old(process), h);
    }
    SUCCESS
}

/// Task `tid` holds a unit of semaphore `h`.
pub open spec fn holds_sema(before: &ProcessControlBlock, tid: int, h: int) -> bool {
    before.semaphore_live(h) && entry(before.semaphore_state().allocation[tid], h) >= 1
}

/// What the return of a unit of semaphore `h` by task `tid` does to the
/// process `before`. The counter goes up by one and the holding becomes a
/// free unit. If tasks wait, the longest-waiting one leaves the queue, is
/// granted the unit at once and is ready.
pub open spec fn sema_given(
    before: &ProcessControlBlock,
    after: &ProcessControlBlock,
    tid: int,
    h: int,
) -> bool {
    let s1 = returned(before.semaphore_state(), tid, h);
    let sem0 = before.semaphore_at(h);
    let sem1 = after.semaphore_at(h);
    &&& after.touched_semaphore(before, h)
    &&& sem1.count == sem0.count + 1
    &&& if sem0.count < 0 {
        &&& after.semaphore_state() == granted(s1, sem0.wait_queue@[0] as int, h)
        &&& sem1.wait_queue@ == sem0.wait_queue@.drop_first()
        &&& after.statuses() == before.statuses().update(
            sem0.wait_queue@[0] as int,
            TaskStatus::Ready,
        )
    } else {
        &&& after.semaphore_state() == s1
        &&& sem1.wait_queue@ == sem0.wait_queue@
        &&& after.statuses() == before.statuses()
    }
}

/// The return of a unit of semaphore `h` by task `tid` in `before` gives
/// `after` and the result `ret`: `INVALID` and no change if the task holds no
/// unit of such a semaphore, and `SUCCESS` with the unit returned otherwise.
pub open spec fn semaphore_up_step(
    before: &ProcessControlBlock,
    after: &ProcessControlBlock,
    tid: int,
    h: int,
    ret: isize,
) -> bool {
    if !holds_sema(before, tid, h) {
        ret == INVALID && *after == *before
    } else {
        ret == SUCCESS && sema_given(before, after, tid, h)
    }
}

/// Task `tid` returns one unit of semaphore `sem_id`.
///
/// Returns `INVALID`, and changes nothing, if the handle names no semaphore
/// or the caller holds no unit of it. Otherwise the unit is returned and
/// `SUCCESS` is returned.
pub fn sys_semaphore_up(process: &mut ProcessControlBlock, tid: usize, sem_id: usize) -> (ret:
    isize)
    requires
        old(process).wf(),
        tid < old(process).tasks@.len(),
    ensures
        final(process).wf(),
        semaphore_up_step(old(process), final(process), tid as int, sem_id as int, ret),
{
    if sem_id >= process.semaphore_list.len() || process.semaphore_list[sem_id].is_none() {
        return INVALID;
    }
    if read_entry(&process.tasks[tid].inner.semaphore_allocation, sem_id) == 0 {
        return INVALID;
    }
    let ghost h = sem_id as int;
    let ghost t = tid as int;
    let ghost n = process.semaphore_list@.len() as int;
    let ghost s0 = process.semaphore_state();
    let ghost s1 = returned(s0, t, h);
    let ghost queue = process.semaphore_at(h).wait_queue@;
    proof {
        assert(old(process).semaphore_slot_wf(h));
        lemma_held_covers_task(s0.allocation, t, h);
        lemma_return_step(s0, t, h, n);
    }
    process.return_sema(tid, sem_id);
    let woken = match &mut process.semaphore_list[sem_id] {
        Some(sem) => sem.up(),
        None => vstd::pervasive::unreached(),
    };
    if let Some(w) = woken {
        proof {
            assert(queue[0] == w);
            assert(entry(s0.need[queue[0] as int], h) >= 1);
            lemma_held_covers_task(s1.allocation, w as int, h);
            lemma_grant_step(s1, w as int, h, n);
        }
        process.grant_sema(w, sem_id);
        process.set_status(w, TaskStatus::Ready);
    }
    proof {
        let s2 = process.semaphore_state();
        let after = process.semaphore_at(h).wait_queue@;
        assert forall|i: int| 0 <= i < after.len() implies entry(
            s2.need[#[trigger] after[i] as int],
            h,
        ) >= 1 && after[i] < process.tasks@.len() by {
            if woken.is_some() {
                assert(after[i] == queue[i + 1]);
                assert(entry(s0.need[queue[i + 1] as int], h) >= 1);
                assert(queue[i + 1] != queue[0]);
            } else {
                assert(after[i] == queue[i]);
                assert(entry(s0.need[queue[i] as int], h) >= 1);
            }
        }
        assert forall|i: int, j: int|
            0 <= i < after.len() && 0 <= j < after.len() && i != j implies after[i]
            != after[j] by {
            if woken.is_some() {
                assert(after[i] == queue[i + 1]);
                assert(after[j] == queue[j + 1]);
            }
        }
        process.lemma_semaphore_step_wf(old(process), h);
    }
    SUCCESS
}

/// A signal on condition variable `c` in `before` gives `after` and the
/// result `ret`: `INVALID` and no change if the handle names no condition
/// variable; `SUCCESS` and no change if nobody waits; and otherwise `SUCCESS`
/// with the longest-waiting task taken off the queue and ready.
pub open spec fn condvar_signal_step(
    before: &ProcessControlBlock,
    after: &ProcessControlBlock,
    c: int,
    ret: isize,
) -> bool {
    if !before.condvar_live(c) {
        ret == INVALID && *after == *before
    } else if before.condvar_at(c).wait_queue@.len() == 0 {
        ret == SUCCESS && *after == *before
    } else {
        let queue = before.condvar_at(c).wait_queue@;
        &&& ret == SUCCESS
        &&& after.touched_condvar(before, c)
        &&& after.condvar_at(c).wait_queue@ == queue.drop_first()
        &&& after.statuses() == before.statuses().update(queue[0] as int, TaskStatus::Ready)
    }
}

/// Wakes the task that has waited longest on condition variable
/// `condvar_id`.
///
/// Returns `INVALID`, and changes nothing, if the handle names no condition
/// variable. With nobody waiting the signal is lost: `SUCCESS` is returned
/// and nothing has changed. Otherwise the longest-waiting task leaves the
/// queue and is ready; it takes its mutex back when it next runs.
pub fn sys_condvar_signal(process: &mut ProcessControlBlock, condvar_id: usize) -> (ret: isize)
    requires
        old(process).wf(),
    ensures
        final(process).wf(),
        condvar_signal_step(old(process), final(process), condvar_id as int, ret),
{
    if condvar_id >= process.condvar_list.len() {
        return INVALID;
    }
    let waiting: usize = match &process.condvar_list[condvar_id] {
        Some(cv) => cv.wait_queue.len(),
        None => {
            return INVALID;
        },
    };
    if waiting == 0 {
        return SUCCESS;
    }
    let ghost c = condvar_id as int;
    let ghost queue = process.condvar_at(c).wait_queue@;
    let woken = match &mut process.condvar_list[condvar_id] {
        Some(cv) => cv.signal(),
        None => vstd::pervasive::unreached(),
    };
    proof {
        assert(old(process).condvar_list@[c].is_some());
        assert(queue[0] < process.tasks@.len());
    }
    if let Some(w) = woken {
        process.set_status(w, TaskStatus::Ready);
    }
    proof {
        let after = process.condvar_at(c).wait_queue@;
        process.lemma_mutex_slots_kept(old(process));
        process.lemma_semaphore_slots_kept(old(process));
        assert forall|k: int|
            0 <= k < process.condvar_list@.len() && (#[trigger] process.condvar_list@[k]).is_some()
            implies process.known_tasks(process.condvar_list@[k].unwrap().wait_queue@) by {
            assert(old(process).condvar_list@[k].is_some());
            if k == c {
                assert forall|i: int| 0 <= i < after.len() implies #[trigger] after[i]
                    < process.tasks@.len() by {
                    assert(after[i] == queue[i + 1]);
                }
            }
        }
    }
    SUCCESS
}

/// What a wait of task `tid` on condition variable `c` with mutex `h` does to
/// the process `before`: the mutex is released as by an unlock, the caller
/// joins the queue of the condition variable and is blocked.
pub open spec fn condvar_waited(
    before: &ProcessControlBlock,
    after: &ProcessControlBlock,
    tid: int,
    c: int,
    h: int,
) -> bool {
    let m0 = before.mutex_at(h);
    let m1 = after.mutex_at(h);
    &&& after.touched_mutex_side(before, h)
    &&& after.condvar_list@.len() == before.condvar_list@.len()
    &&& forall|k: int|
        0 <= k < after.condvar_list@.len() && k != c ==> #[trigger] after.condvar_list@[k]
            == before.condvar_list@[k]
    &&& after.condvar_live(c)
    &&& after.condvar_at(c).wait_queue@ == before.condvar_at(c).wait_queue@.push(tid as usize)
    &&& after.mutex_state() == returned(before.mutex_state(), tid, h)
    &&& !m1.is_locked()
    &&& if m0.waiters().len() > 0 {
        &&& m1.waiters() == m0.waiters().drop_first()
        &&& after.statuses() == before.statuses().update(
            m0.waiters()[0] as int,
            TaskStatus::Ready,
        ).update(tid, TaskStatus::Blocked)
    } else {
        &&& m1.waiters() == m0.waiters()
        &&& after.statuses() == before.statuses().update(tid, TaskStatus::Blocked)
    }
}

/// A wait of task `tid` on condition variable `c` with mutex `h` in `before`
/// gives `after` and the result `ret`: `INVALID` and no change if the handle
/// names no condition variable or the task does not hold such a mutex, and
/// `SUCCESS` with the wait begun otherwise.
pub open spec fn condvar_wait_step(
    before: &ProcessControlBlock,
    after: &ProcessControlBlock,
    tid: int,
    c: int,
    h: int,
    ret: isize,
) -> bool {
    if !(before.condvar_live(c) && holds_mutex(before, tid, h)) {
        ret == INVALID && *after == *before
    } else {
        ret == SUCCESS && condvar_waited(before, after, tid, c, h)
    }
}

/// Task `tid` waits on condition variable `condvar_id` and gives up mutex
/// `mutex_id` for the time of the wait.
///
/// Returns `INVALID`, and changes nothing, if a handle names nothing or the
/// caller does not hold the mutex. Otherwise the mutex is released, the
/// caller is queued on the condition variable and blocked, all in this one
/// step, and `SUCCESS` is returned. Once a signal has woken the caller it
/// takes the mutex back with `acquire_mutex` before it goes on.
pub fn sys_condvar_wait(
    process: &mut ProcessControlBlock,
    tid: usize,
    condvar_id: usize,
    mutex_id: usize,
) -> (ret: isize)
    requires
        old(process).wf(),
        tid < old(process).tasks@.len(),
    ensures
        final(process).wf(),
        condvar_wait_step(
            old(process),
            final(process),
            tid as int,
            condvar_id as int,
            mutex_id as int,
            ret,
        ),
{
    if condvar_id >= process.condvar_list.len() || process.condvar_list[condvar_id].is_none() {
        return INVALID;
    }
    if mutex_id >= process.mutex_list.len() || process.mutex_list[mutex_id].is_none() {
        return INVALID;
    }
    if read_entry(&process.tasks[tid].inner.mutex_allocation, mutex_id) == 0 {
        return INVALID;
    }
    let ghost h = mutex_id as int;
    let ghost c = condvar_id as int;
    let ghost s0 = process.mutex_state();
    let ghost queue = process.condvar_at(c).wait_queue@;
    proof {
        assert(old(process).mutex_slot_wf(h));
        lemma_held_covers_task(s0.allocation, tid as int, h);
        lemma_return_step(s0, tid as int, h, process.mutex_list@.len() as int);
    }
    process.return_mutex(tid, mutex_id);
    let woken = match (&mut process.condvar_list[condvar_id], &mut process.mutex_list[mutex_id]) {
        (Some(cv), Some(m)) => cv.wait(tid, m),
        _ => vstd::pervasive::unreached(),
    };
    if let Some(w) = woken {
        process.set_status(w, TaskStatus::Ready);
    }
    process.set_status(tid, TaskStatus::Blocked);
    proof {
        let after = process.condvar_at(c).wait_queue@;
        assert forall|k: int|
            0 <= k < process.condvar_list@.len() && (#[trigger] process.condvar_list@[k]).is_some()
            implies process.known_tasks(process.condvar_list@[k].unwrap().wait_queue@) by {
            assert(old(process).condvar_list@[k].is_some());
            if k == c {
                assert forall|i: int| 0 <= i < after.len() implies #[trigger] after[i]
                    < process.tasks@.len() by {
                    if i < queue.len() {
                        assert(after[i] == queue[i]);
                    }
                }
            }
        }
        process.lemma_mutex_step_wf(old(process), h);
    }
    SUCCESS
}

/// A sleep of task `tid` for `ms` milliseconds, asked for at time `now_ms` in
/// `before`, gives `after` and the result `ret`: the task is blocked, its
/// wake-up time is `now_ms + ms`, and nothing else has changed.
pub open spec fn sleep_step(
    before: &ProcessControlBlock,
    after: &ProcessControlBlock,
    tid: int,
    now_ms: usize,
    ms: usize,
    ret: isize,
) -> bool {
    &&& ret == SUCCESS
    &&& after.kept_beside_scheduling(before)
    &&& after.statuses() == before.statuses().update(tid, TaskStatus::Blocked)
    &&& after.wake_times() == before.wake_times().update(tid, Some((now_ms + ms) as usize))
}

/// Task `tid` sleeps for `ms` milliseconds from the time `now_ms`: its
/// wake-up time is registered and it is blocked until the timer fires.
pub fn sys_sleep(process: &mut ProcessControlBlock, tid: usize, now_ms: usize, ms: usize) -> (ret:
    isize)
    requires
        old(process).wf(),
        tid < old(process).tasks@.len(),
        now_ms + ms <= usize::MAX,
    ensures
        final(process).wf(),
        sleep_step(old(process), final(process), tid as int, now_ms, ms, ret),
{
    let expire_ms: usize = now_ms + ms;
    process.set_timer(tid, expire_ms);
    proof {
        process.lemma_wf_kept(old(process));
    }
    SUCCESS
}

} // verus!
