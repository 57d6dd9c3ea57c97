//! What holds of the requests taken together.
//!
//! Each law speaks of the steps that the requests take on a process and is
//! proved from the steps' definitions.
use crate::circulation::{
    circulation, granted, lemma_grant_keeps_circulation, lemma_held_covers_task,
    lemma_held_covers_two, lemma_need_keeps_circulation, lemma_reset_circulation,
    lemma_return_keeps_circulation, requested, returned,
};
use crate::detect::safe_state;
use crate::ledger::{entry, lemma_with_entry};
use crate::process::ProcessControlBlock;
use crate::syscall::{
    condvar_signal_step, condvar_wait_step, condvar_waited, holds_mutex, holds_sema,
    mutex_create_step, mutex_lock_step, mutex_unlock_step, sema_given, sema_taken,
    semaphore_create_step, semaphore_down_step, semaphore_up_step, DEADLOCK, SUCCESS,
};
use crate::task::TaskStatus;
use vstd::prelude::*;

verus! {

/// Mutual exclusion: in a consistent process a mutex is held by at most one
/// task, whether detection is switched on or not, and a mutex that a task
/// holds is marked as held.
pub proof fn lemma_mutual_exclusion(p: &ProcessControlBlock, h: int, t: int, u: int)
    requires
        p.wf(),
        0 <= t < p.tasks@.len(),
        0 <= u < p.tasks@.len(),
        t != u,
        holds_mutex(p, t, h),
    ensures
        !holds_mutex(p, u, h),
        entry(p.mutex_state().allocation[t], h) == 1,
        p.mutex_at(h).is_locked(),
{
    assert(p.mutex_slot_wf(h));
    lemma_held_covers_two(p.mutex_state().allocation, t, u, h);
}

/// A request gives a task a mutex only if the mutex was free: when a task
/// that did not hold the mutex holds it after its request, the mutex was not
/// held before, by anyone.
pub proof fn lemma_lock_takes_free_mutex(
    before: &ProcessControlBlock,
    after: &ProcessControlBlock,
    tid: int,
    h: int,
    ret: isize,
    other: int,
)
    requires
        before.wf(),
        0 <= tid < before.tasks@.len(),
        0 <= other < before.tasks@.len(),
        mutex_lock_step(before, after, tid, h, ret),
        !holds_mutex(before, tid, h),
        holds_mutex(after, tid, h),
    ensures
        ret == SUCCESS,
        !before.mutex_at(h).is_locked(),
        !holds_mutex(before, other, h),
        after.statuses()[tid] == TaskStatus::Running,
{
    assert(before.mutex_slot_wf(h));
    let s0 = before.mutex_state();
    lemma_with_entry(s0.need[tid], h, (entry(s0.need[tid], h) + 1) as usize, h);
    lemma_held_covers_task(s0.allocation, other, h);
}

/// The deadlock result is given exactly when the detector finds the ledger
/// unsafe: a request for a mutex returns `DEADLOCK` if and only if the handle
/// names a mutex, detection is switched on, the request is a first one, and
/// the mutex ledger with the request recorded is not safe. The process is
/// then as it was before the request.
pub proof fn lemma_mutex_deadlock_result(
    before: &ProcessControlBlock,
    after: &ProcessControlBlock,
    tid: int,
    h: int,
    ret: isize,
)
    requires
        mutex_lock_step(before, after, tid, h, ret),
    ensures
        ret == DEADLOCK <==> before.mutex_live(h) && before.deadlock_det && entry(
            before.mutex_state().need[tid],
            h,
        ) == 0 && !safe_state(requested(before.mutex_state(), tid, h)),
        ret == DEADLOCK ==> *after == *before,
        !before.deadlock_det ==> ret != DEADLOCK,
{
}

/// The deadlock result is given exactly when the detector finds the ledger
/// unsafe: a request for a unit of a semaphore returns `DEADLOCK` if and only
/// if the handle names a semaphore, the task does not wait for it already,
/// detection is switched on, and the semaphore ledger with the request
/// recorded is not safe. The process is then as it was before the request.
pub proof fn lemma_semaphore_deadlock_result(
    before: &ProcessControlBlock,
    after: &ProcessControlBlock,
    tid: int,
    h: int,
    ret: isize,
)
    requires
        semaphore_down_step(before, after, tid, h, ret),
    ensures
        ret == DEADLOCK <==> before.semaphore_live(h) && entry(
            before.semaphore_state().need[tid],
            h,
        ) == 0 && before.deadlock_det && !safe_state(requested(before.semaphore_state(), tid, h)),
        ret == DEADLOCK ==> *after == *before,
        !before.deadlock_det ==> ret != DEADLOCK,
{
}

/// A denied request for a mutex leaves no trace: whatever request any task
/// makes next has the outcome that it would have had without the denied one.
pub proof fn lemma_denied_lock_leaves_no_trace(
    before: &ProcessControlBlock,
    denied: &ProcessControlBlock,
    tid: int,
    h: int,
    after: &ProcessControlBlock,
    next_tid: int,
    next_h: int,
    next_ret: isize,
)
    requires
        mutex_lock_step(before, denied, tid, h, DEADLOCK),
    ensures
        denied.mutex_state() == before.mutex_state(),
        mutex_lock_step(denied, after, next_tid, next_h, next_ret) == mutex_lock_step(
            before,
            after,
            next_tid,
            next_h,
            next_ret,
        ),
{
}

/// A denied request for a unit of a semaphore leaves no trace: whatever
/// request any task makes next has the outcome that it would have had
/// without the denied one.
pub proof fn lemma_denied_down_leaves_no_trace(
    before: &ProcessControlBlock,
    denied: &ProcessControlBlock,
    tid: int,
    h: int,
    after: &ProcessControlBlock,
    next_tid: int,
    next_h: int,
    next_ret: isize,
)
    requires
        semaphore_down_step(before, denied, tid, h, DEADLOCK),
    ensures
        denied.semaphore_state() == before.semaphore_state(),
        semaphore_down_step(denied, after, next_tid, next_h, next_ret) == semaphore_down_step(
            before,
            after,
            next_tid,
            next_h,
            next_ret,
        ),
{
}

/// A created mutex starts with clean rows: whether its handle is new or was
/// used before, every task's mutex rows reach the handle and hold zero for
/// it, and the one instance in circulation is free.
pub proof fn lemma_created_mutex_is_clean(
    before: &ProcessControlBlock,
    after: &ProcessControlBlock,
    blocking: bool,
    ret: isize,
    t: int,
)
    requires
        mutex_create_step(before, after, blocking, ret),
        0 <= t < before.tasks@.len(),
    ensures
        ret >= 0,
        after.tasks@[t].inner.mutex_allocation@.len() >= ret + 1,
        after.tasks@[t].inner.mutex_need@.len() >= ret + 1,
        after.tasks@[t].inner.mutex_allocation@[ret as int] == 0,
        after.tasks@[t].inner.mutex_need@[ret as int] == 0,
        after.mutex_available@[ret as int] == 1,
        circulation(after.mutex_state(), ret as int) == 1,
{
    lemma_reset_circulation(before.mutex_state(), ret as int, 1, ret as int);
    let s0 = before.mutex_state();
    let s1 = after.mutex_state();
    assert(s1.allocation[t] == after.tasks@[t].inner.mutex_allocation@);
    assert(s1.need[t] == after.tasks@[t].inner.mutex_need@);
    lemma_with_entry(s0.allocation[t], ret as int, 0, ret as int);
    lemma_with_entry(s0.need[t], ret as int, 0, ret as int);
    lemma_with_entry(s0.available, ret as int, 1, ret as int);
}

/// A created semaphore starts with clean rows: whether its handle is new or
/// was used before, every task's semaphore rows reach the handle and hold
/// zero for it, and the units in circulation are those it was created with,
/// all free.
pub proof fn lemma_created_semaphore_is_clean(
    before: &ProcessControlBlock,
    after: &ProcessControlBlock,
    res_count: usize,
    ret: isize,
    t: int,
)
    requires
        semaphore_create_step(before, after, res_count, ret),
        0 <= t < before.tasks@.len(),
    ensures
        ret >= 0,
        after.tasks@[t].inner.semaphore_allocation@.len() >= ret + 1,
        after.tasks@[t].inner.semaphore_need@.len() >= ret + 1,
        after.tasks@[t].inner.semaphore_allocation@[ret as int] == 0,
        after.tasks@[t].inner.semaphore_need@[ret as int] == 0,
        after.semaphore_available@[ret as int] == res_count,
        circulation(after.semaphore_state(), ret as int) == res_count,
{
    lemma_reset_circulation(before.semaphore_state(), ret as int, res_count, ret as int);
    let s0 = before.semaphore_state();
    let s1 = after.semaphore_state();
    assert(s1.allocation[t] == after.tasks@[t].inner.semaphore_allocation@);
    assert(s1.need[t] == after.tasks@[t].inner.semaphore_need@);
    lemma_with_entry(s0.allocation[t], ret as int, 0, ret as int);
    lemma_with_entry(s0.need[t], ret as int, 0, ret as int);
    lemma_with_entry(s0.available, ret as int, res_count, ret as int);
}

/// Counting: of a run of admitted requests for units of one semaphore whose
/// counter stands at `n`, with nothing else happening in between, the first
/// `n` leave their callers running and the queue as it was, and every later
/// one blocks its caller and puts it at the end of the queue. The counter
/// goes down by one with each.
pub proof fn lemma_semaphore_counts(
    states: Seq<ProcessControlBlock>,
    tids: Seq<int>,
    h: int,
    n: int,
    i: int,
)
    requires
        states.len() == tids.len() + 1,
        0 <= n,
        states[0].semaphore_live(h),
        states[0].semaphore_at(h).count == n,
        forall|j: int|
            0 <= j < tids.len() ==> 0 <= #[trigger] tids[j] < states[j].tasks@.len() && sema_taken(
                &states[j],
                &states[j + 1],
                tids[j],
                h,
            ),
        0 <= i < tids.len(),
    ensures
        states[i + 1].semaphore_at(h).count == n - i - 1,
        i < n ==> states[i + 1].statuses()[tids[i]] == TaskStatus::Running && states[i
            + 1].semaphore_at(h).wait_queue@ == states[i].semaphore_at(h).wait_queue@,
        i >= n ==> states[i + 1].statuses()[tids[i]] == TaskStatus::Blocked && states[i
            + 1].semaphore_at(h).wait_queue@ == states[i].semaphore_at(h).wait_queue@.push(
            tids[i] as usize,
        ),
    decreases i,
{
    assert(sema_taken(&states[i], &states[i + 1], tids[i], h));
    if i > 0 {
        lemma_semaphore_counts(states, tids, h, n, i - 1);
    }
}

/// A blocked request is served by the next return: when a unit of a
/// semaphore is returned while tasks wait, the longest-waiting task leaves
/// the queue, is ready, and holds a unit.
pub proof fn lemma_up_serves_longest_waiter(
    before: &ProcessControlBlock,
    after: &ProcessControlBlock,
    tid: int,
    h: int,
    ret: isize,
)
    requires
        before.wf(),
        0 <= tid < before.tasks@.len(),
        semaphore_up_step(before, after, tid, h, ret),
        holds_sema(before, tid, h),
        before.semaphore_at(h).wait_queue@.len() > 0,
    ensures
        ret == SUCCESS,
        after.statuses()[before.semaphore_at(h).wait_queue@[0] as int] == TaskStatus::Ready,
        holds_sema(after, before.semaphore_at(h).wait_queue@[0] as int, h),
        after.semaphore_at(h).wait_queue@ == before.semaphore_at(h).wait_queue@.drop_first(),
{
    assert(before.semaphore_slot_wf(h));
    let w = before.semaphore_at(h).wait_queue@[0] as int;
    let s0 = before.semaphore_state();
    let s1 = returned(s0, tid, h);
    assert(before.semaphore_at(h).wait_queue@[0] < before.tasks@.len());
    lemma_held_covers_task(s0.allocation, tid, h);
    lemma_return_keeps_circulation(s0, tid, h, h);
    lemma_with_entry(s0.available, h, (entry(s0.available, h) + 1) as usize, h);
    lemma_held_covers_task(s1.allocation, w, h);
    lemma_with_entry(s1.allocation[w], h, (entry(s1.allocation[w], h) + 1) as usize, h);
    assert(sema_given(before, after, tid, h));
    assert(after.semaphore_state() == granted(s1, w, h));
}

/// A signal that nobody waits for is lost: it changes nothing, and a wait
/// that follows it blocks its caller, who is then alone in the queue.
pub proof fn lemma_lost_signal(
    before: &ProcessControlBlock,
    signalled: &ProcessControlBlock,
    after: &ProcessControlBlock,
    tid: int,
    c: int,
    h: int,
    signal_ret: isize,
    wait_ret: isize,
)
    requires
        before.wf(),
        0 <= tid < before.tasks@.len(),
        before.condvar_live(c),
        before.condvar_at(c).wait_queue@.len() == 0,
        condvar_signal_step(before, signalled, c, signal_ret),
        condvar_wait_step(signalled, after, tid, c, h, wait_ret),
        holds_mutex(before, tid, h),
    ensures
        signal_ret == SUCCESS,
        *signalled == *before,
        wait_ret == SUCCESS,
        after.statuses()[tid] == TaskStatus::Blocked,
        after.condvar_at(c).wait_queue@ == seq![tid as usize],
{
    assert(*signalled == *before);
    assert(condvar_waited(signalled, after, tid, c, h));
    assert(before.mutex_slot_wf(h));
    assert(before.statuses().len() == before.tasks@.len());
    if before.mutex_at(h).waiters().len() > 0 {
        assert(before.mutex_at(h).waiters()[0] < before.tasks@.len());
    }
    assert(after.condvar_at(c).wait_queue@ =~= seq![tid as usize]);
}

/// Requests and releases of mutexes keep every handle's instances in
/// circulation: what the tasks hold and what is free add up as before.
pub proof fn lemma_mutex_steps_keep_circulation(
    before: &ProcessControlBlock,
    after: &ProcessControlBlock,
    tid: int,
    h: int,
    ret: isize,
    k: int,
)
    requires
        before.wf(),
        0 <= tid < before.tasks@.len(),
        mutex_lock_step(before, after, tid, h, ret) || mutex_unlock_step(
            before,
            after,
            tid,
            h,
            ret,
        ),
    ensures
        circulation(after.mutex_state(), k) == circulation(before.mutex_state(), k),
{
    let s0 = before.mutex_state();
    if before.mutex_live(h) {
        assert(before.mutex_slot_wf(h));
        lemma_need_keeps_circulation(s0, tid, h, (entry(s0.need[tid], h) + 1) as usize, k);
        let s1 = crate::circulation::admitted(s0, tid, h);
        lemma_need_keeps_circulation(s0, tid, h, (entry(s0.need[tid], h) + 1) as usize, h);
        if mutex_lock_step(before, after, tid, h, ret) {
            if ret == SUCCESS && !before.mutex_at(h).is_locked() {
                lemma_grant_keeps_circulation(s1, tid, h, k);
            }
        } else {
            if ret == SUCCESS {
                lemma_return_keeps_circulation(s0, tid, h, k);
            }
        }
    }
}

/// Requests for and returns of semaphore units keep every handle's units in
/// circulation: what the tasks hold and what is free add up as before.
pub proof fn lemma_semaphore_steps_keep_circulation(
    before: &ProcessControlBlock,
    after: &ProcessControlBlock,
    tid: int,
    h: int,
    ret: isize,
    k: int,
)
    requires
        before.wf(),
        0 <= tid < before.tasks@.len(),
        semaphore_down_step(before, after, tid, h, ret) || semaphore_up_step(
            before,
            after,
            tid,
            h,
            ret,
        ),
    ensures
        circulation(after.semaphore_state(), k) == circulation(before.semaphore_state(), k),
{
    let s0 = before.semaphore_state();
    if before.semaphore_live(h) {
        assert(before.semaphore_slot_wf(h));
        let s1 = requested(s0, tid, h);
        lemma_need_keeps_circulation(s0, tid, h, (entry(s0.need[tid], h) + 1) as usize, k);
        lemma_need_keeps_circulation(s0, tid, h, (entry(s0.need[tid], h) + 1) as usize, h);
        if semaphore_down_step(before, after, tid, h, ret) {
            if ret == SUCCESS && before.semaphore_at(h).count > 0 {
                lemma_grant_keeps_circulation(s1, tid, h, k);
            }
        } else {
            if ret == SUCCESS {
                let s2 = returned(s0, tid, h);
                lemma_return_keeps_circulation(s0, tid, h, k);
                lemma_return_keeps_circulation(s0, tid, h, h);
                lemma_with_entry(s0.available, h, (entry(s0.available, h) + 1) as usize, h);
                if before.semaphore_at(h).count < 0 {
                    let w = before.semaphore_at(h).wait_queue@[0] as int;
                    lemma_grant_keeps_circulation(s2, w, h, k);
                }
            }
        }
    }
}

} // verus!
