//! A process: its tasks, its synchronization primitives and the resource
//! ledger that the deadlock detector reads.
use crate::circulation::{
    circulation, granted, laid_out, lemma_new_task_keeps_circulation, requested, reset, returned,
    same_beside,
};
use crate::condvar::Condvar;
use crate::detect::{checkable, is_safe, rows, safe_state, state_of, ResourceState};
use crate::ledger::{copy_of, entry, record, set_entry, shifted, with_entry};
use crate::mutex::Mutex;
use crate::semaphore::Semaphore;
use crate::task::{TaskControlBlock, TaskStatus};
use vstd::prelude::*;

verus! {

/// The state of one process that its tasks share.
///
/// Handles are indices into the three lists. A slot that holds `None` is
/// empty and is taken again by the next creation.
#[derive(Debug)]
pub struct ProcessControlBlock {
    /// Whether requests are checked for deadlock before they are admitted.
    pub deadlock_det: bool,
    /// The tasks of the process; a task's index is its identifier.
    pub tasks: Vec<TaskControlBlock>,
    /// The mutexes, by handle.
    pub mutex_list: Vec<Option<Mutex>>,
    /// The semaphores, by handle.
    pub semaphore_list: Vec<Option<Semaphore>>,
    /// The condition variables, by handle.
    pub condvar_list: Vec<Option<Condvar>>,
    /// Per mutex handle, one if the mutex is free and zero if it is held.
    pub mutex_available: Vec<usize>,
    /// Per semaphore handle, the free units.
    pub semaphore_available: Vec<usize>,
}

impl ProcessControlBlock {
    /// Per task, the mutexes it holds.
    pub open spec fn mutex_allocation_rows(&self) -> Seq<Seq<usize>> {
        Seq::new(self.tasks@.len(), |t: int| self.tasks@[t].inner.mutex_allocation@)
    }

    /// Per task, the mutexes it waits for.
    pub open spec fn mutex_need_rows(&self) -> Seq<Seq<usize>> {
        Seq::new(self.tasks@.len(), |t: int| self.tasks@[t].inner.mutex_need@)
    }

    /// Per task, the semaphore units it holds.
    pub open spec fn semaphore_allocation_rows(&self) -> Seq<Seq<usize>> {
        Seq::new(self.tasks@.len(), |t: int| self.tasks@[t].inner.semaphore_allocation@)
    }

    /// Per task, the semaphore units it waits for.
    pub open spec fn semaphore_need_rows(&self) -> Seq<Seq<usize>> {
        Seq::new(self.tasks@.len(), |t: int| self.tasks@[t].inner.semaphore_need@)
    }

    /// The ledger of the mutexes.
    pub open spec fn mutex_state(&self) -> ResourceState {
        ResourceState {
            available: self.mutex_available@,
            allocation: self.mutex_allocation_rows(),
            need: self.mutex_need_rows(),
        }
    }

    /// The ledger of the semaphores.
    pub open spec fn semaphore_state(&self) -> ResourceState {
        ResourceState {
            available: self.semaphore_available@,
            allocation: self.semaphore_allocation_rows(),
            need: self.semaphore_need_rows(),
        }
    }

    /// The status of every task, by task identifier.
    pub open spec fn statuses(&self) -> Seq<TaskStatus> {
        Seq::new(self.tasks@.len(), |t: int| self.tasks@[t].inner.task_status)
    }

    /// The wake-up time of every task, by task identifier.
    pub open spec fn wake_times(&self) -> Seq<Option<usize>> {
        Seq::new(self.tasks@.len(), |t: int| self.tasks@[t].inner.wake_at)
    }

    /// The mutex at handle `h`.
    pub open spec fn mutex_at(&self, h: int) -> Mutex {
        self.mutex_list@[h].unwrap()
    }

    /// The semaphore at handle `h`.
    pub open spec fn semaphore_at(&self, h: int) -> Semaphore {
        self.semaphore_list@[h].unwrap()
    }

    /// The condition variable at handle `h`.
    pub open spec fn condvar_at(&self, h: int) -> Condvar {
        self.condvar_list@[h].unwrap()
    }

    /// Handle `h` names a mutex.
    pub open spec fn mutex_live(&self, h: int) -> bool {
        0 <= h < self.mutex_list@.len() && self.mutex_list@[h].is_some()
    }

    /// Handle `h` names a semaphore.
    pub open spec fn semaphore_live(&self, h: int) -> bool {
        0 <= h < self.semaphore_list@.len() && self.semaphore_list@[h].is_some()
    }

    /// Handle `h` names a condition variable.
    pub open spec fn condvar_live(&self, h: int) -> bool {
        0 <= h < self.condvar_list@.len() && self.condvar_list@[h].is_some()
    }

    /// Every task named in `queue` is a task of this process.
    pub open spec fn known_tasks(&self, queue: Seq<usize>) -> bool {
        forall|i: int| 0 <= i < queue.len() ==> #[trigger] queue[i] < self.tasks@.len()
    }

    /// The ledger agrees with mutex slot `h`: exactly one instance circulates,
    /// it is free exactly when the mutex is not held, and the waiters are
    /// tasks of this process. Of an empty slot the ledger only keeps its
    /// counts within the machine word.
    pub open spec fn mutex_slot_wf(&self, h: int) -> bool {
        match self.mutex_list@[h] {
            Some(m) => {
                &&& circulation(self.mutex_state(), h) == 1
                &&& m.is_locked() == (self.mutex_available@[h] == 0)
                &&& self.known_tasks(m.waiters())
            },
            None => circulation(self.mutex_state(), h) <= usize::MAX,
        }
    }

    /// The ledger agrees with semaphore slot `h`: the free units are the
    /// counter where it is positive, and every waiter is a task of this
    /// process, queued once, with its request recorded. Of an empty slot the
    /// ledger only keeps its counts within the machine word.
    pub open spec fn semaphore_slot_wf(&self, h: int) -> bool {
        match self.semaphore_list@[h] {
            Some(sem) => {
                &&& sem.wf()
                &&& circulation(self.semaphore_state(), h) <= isize::MAX
                &&& self.semaphore_available@[h] == if sem.count > 0 {
                    sem.count as int
                } else {
                    0
                }
                &&& self.known_tasks(sem.wait_queue@)
                &&& sem.wait_queue@.no_duplicates()
                &&& forall|i: int|
                    0 <= i < sem.wait_queue@.len() ==> entry(
                        self.semaphore_state().need[#[trigger] sem.wait_queue@[i] as int],
                        h,
                    ) >= 1
            },
            None => circulation(self.semaphore_state(), h) <= usize::MAX,
        }
    }

    /// Only tasks of this process wait on its condition variables.
    pub open spec fn condvars_wf(&self) -> bool {
        forall|c: int|
            0 <= c < self.condvar_list@.len() && (#[trigger] self.condvar_list@[c]).is_some()
                ==> self.known_tasks(self.condvar_list@[c].unwrap().wait_queue@)
    }

    /// The process is consistent: tasks are numbered by their place, both
    /// ledgers are laid out for the handles of their class, the ledgers agree
    /// with every mutex and semaphore, and only tasks of this process wait on
    /// its condition variables.
    pub open spec fn wf(&self) -> bool {
        &&& self.tasks@.len() <= isize::MAX
        &&& forall|t: int| 0 <= t < self.tasks@.len() ==> (#[trigger] self.tasks@[t]).tid == t
        &&& laid_out(self.mutex_state(), self.mutex_list@.len() as int)
        &&& laid_out(self.semaphore_state(), self.semaphore_list@.len() as int)
        &&& forall|h: int| 0 <= h < self.mutex_list@.len() ==> #[trigger] self.mutex_slot_wf(h)
        &&& forall|h: int|
            0 <= h < self.semaphore_list@.len() ==> #[trigger] self.semaphore_slot_wf(h)
        &&& self.condvars_wf()
    }

    /// `self` has the tasks of `before`, each with its identifier and exit
    /// code.
    pub open spec fn same_task_ids(&self, before: &Self) -> bool {
        &&& self.tasks@.len() == before.tasks@.len()
        &&& forall|t: int|
            0 <= t < self.tasks@.len() ==> (#[trigger] self.tasks@[t]).tid == before.tasks@[t].tid
                && self.tasks@[t].inner.exit_code == before.tasks@[t].inner.exit_code
    }

    /// Outside the mutex ledger `self` is as `before`.
    pub open spec fn kept_beside_mutex_ledger(&self, before: &Self) -> bool {
        &&& self.deadlock_det == before.deadlock_det
        &&& self.mutex_list == before.mutex_list
        &&& self.semaphore_list == before.semaphore_list
        &&& self.condvar_list == before.condvar_list
        &&& self.semaphore_state() == before.semaphore_state()
        &&& self.statuses() == before.statuses()
        &&& self.wake_times() == before.wake_times()
        &&& self.same_task_ids(before)
    }

    /// Outside the semaphore ledger `self` is as `before`.
    pub open spec fn kept_beside_semaphore_ledger(&self, before: &Self) -> bool {
        &&& self.deadlock_det == before.deadlock_det
        &&& self.mutex_list == before.mutex_list
        &&& self.semaphore_list == before.semaphore_list
        &&& self.condvar_list == before.condvar_list
        &&& self.mutex_state() == before.mutex_state()
        &&& self.statuses() == before.statuses()
        &&& self.wake_times() == before.wake_times()
        &&& self.same_task_ids(before)
    }

    /// Outside the status and the wake-up time of its tasks `self` is as
    /// `before`.
    pub open spec fn kept_beside_scheduling(&self, before: &Self) -> bool {
        &&& self.deadlock_det == before.deadlock_det
        &&& self.mutex_list == before.mutex_list
        &&& self.semaphore_list == before.semaphore_list
        &&& self.condvar_list == before.condvar_list
        &&& self.mutex_state() == before.mutex_state()
        &&& self.semaphore_state() == before.semaphore_state()
        &&& self.same_task_ids(before)
    }

    /// Outside the mutex ledger, mutex `h`, the condition variables and the
    /// status of the tasks, `self` is as `before`.
    pub open spec fn touched_mutex_side(&self, before: &Self, h: int) -> bool {
        &&& self.deadlock_det == before.deadlock_det
        &&& self.semaphore_list == before.semaphore_list
        &&& self.semaphore_state() == before.semaphore_state()
        &&& self.same_task_ids(before)
        &&& self.wake_times() == before.wake_times()
        &&& self.mutex_list@.len() == before.mutex_list@.len()
        &&& forall|k: int|
            0 <= k < self.mutex_list@.len() && k != h ==> #[trigger] self.mutex_list@[k]
                == before.mutex_list@[k]
        &&& self.mutex_live(h) && before.mutex_live(h)
        &&& self.mutex_at(h).is_blocking() == before.mutex_at(h).is_blocking()
    }

    /// Outside the mutex ledger, mutex `h` and the status of the tasks,
    /// `self` is as `before`.
    pub open spec fn touched_mutex(&self, before: &Self, h: int) -> bool {
        self.touched_mutex_side(before, h) && self.condvar_list == before.condvar_list
    }

    /// Outside the semaphore ledger, semaphore `h` and the status of the
    /// tasks, `self` is as `before`.
    pub open spec fn touched_semaphore(&self, before: &Self, h: int) -> bool {
        &&& self.deadlock_det == before.deadlock_det
        &&& self.mutex_list == before.mutex_list
        &&& self.condvar_list == before.condvar_list
        &&& self.mutex_state() == before.mutex_state()
        &&& self.same_task_ids(before)
        &&& self.wake_times() == before.wake_times()
        &&& self.semaphore_list@.len() == before.semaphore_list@.len()
        &&& forall|k: int|
            0 <= k < self.semaphore_list@.len() && k != h ==> #[trigger] self.semaphore_list@[k]
                == before.semaphore_list@[k]
        &&& self.semaphore_live(h) && before.semaphore_live(h)
    }

    /// Outside condition variable `c` and the status of the tasks, `self` is
    /// as `before`.
    pub open spec fn touched_condvar(&self, before: &Self, c: int) -> bool {
        &&& self.deadlock_det == before.deadlock_det
        &&& self.mutex_list == before.mutex_list
        &&& self.semaphore_list == before.semaphore_list
        &&& self.mutex_state() == before.mutex_state()
        &&& self.semaphore_state() == before.semaphore_state()
        &&& self.same_task_ids(before)
        &&& self.wake_times() == before.wake_times()
        &&& self.condvar_list@.len() == before.condvar_list@.len()
        &&& forall|k: int|
            0 <= k < self.condvar_list@.len() && k != c ==> #[trigger] self.condvar_list@[k]
                == before.condvar_list@[k]
        &&& self.condvar_live(c) && before.condvar_live(c)
    }

    /// A change that leaves the mutexes and the mutex ledger alone keeps the
    /// ledger in agreement with every mutex.
    pub proof fn lemma_mutex_slots_kept(&self, before: &Self)
        requires
            before.wf(),
            self.tasks@.len() == before.tasks@.len(),
            self.mutex_list@ == before.mutex_list@,
            self.mutex_state() == before.mutex_state(),
        ensures
            forall|h: int| 0 <= h < self.mutex_list@.len() ==> #[trigger] self.mutex_slot_wf(h),
    {
        assert forall|h: int| 0 <= h < self.mutex_list@.len() implies #[trigger] self.mutex_slot_wf(
            h,
        ) by {
            assert(before.mutex_slot_wf(h));
        }
    }

    /// A change that leaves the semaphores and the semaphore ledger alone
    /// keeps the ledger in agreement with every semaphore.
    pub proof fn lemma_semaphore_slots_kept(&self, before: &Self)
        requires
            before.wf(),
            self.tasks@.len() == before.tasks@.len(),
            self.semaphore_list@ == before.semaphore_list@,
            self.semaphore_state() == before.semaphore_state(),
        ensures
            forall|h: int|
                0 <= h < self.semaphore_list@.len() ==> #[trigger] self.semaphore_slot_wf(h),
    {
        assert forall|h: int|
            0 <= h < self.semaphore_list@.len() implies #[trigger] self.semaphore_slot_wf(h) by {
            assert(before.semaphore_slot_wf(h));
        }
    }

    /// A change that leaves the condition variables and the number of tasks
    /// alone keeps every waiter a task of this process.
    pub proof fn lemma_condvars_kept(&self, before: &Self)
        requires
            before.wf(),
            self.tasks@.len() == before.tasks@.len(),
            self.condvar_list@ == before.condvar_list@,
        ensures
            self.condvars_wf(),
    {
    }

    /// Consistency does not depend on whether detection is switched on, nor
    /// on the status of the tasks or their wake-up times.
    pub proof fn lemma_wf_kept(&self, before: &Self)
        requires
            before.wf(),
            self.same_task_ids(before),
            self.mutex_list@ == before.mutex_list@,
            self.semaphore_list@ == before.semaphore_list@,
            self.condvar_list@ == before.condvar_list@,
            self.mutex_state() == before.mutex_state(),
            self.semaphore_state() == before.semaphore_state(),
        ensures
            self.wf(),
    {
        self.lemma_mutex_slots_kept(before);
        self.lemma_semaphore_slots_kept(before);
        self.lemma_condvars_kept(before);
    }

    /// A step on mutex `h` that keeps the mutex ledger laid out, keeps every
    /// handle's circulation, changes the ledger at `h` alone, and leaves the
    /// ledger in agreement with the mutex, keeps the whole process consistent.
    pub proof fn lemma_mutex_step_wf(&self, before: &Self, h: int)
        requires
            before.wf(),
            self.touched_mutex_side(before, h),
            self.condvars_wf(),
            laid_out(self.mutex_state(), self.mutex_list@.len() as int),
            same_beside(before.mutex_state(), self.mutex_state(), h),
            forall|k: int|
                0 <= k < self.mutex_list@.len() ==> circulation(self.mutex_state(), k)
                    == circulation(before.mutex_state(), k),
            self.mutex_at(h).is_locked() == (self.mutex_available@[h] == 0),
            self.known_tasks(self.mutex_at(h).waiters()),
        ensures
            self.wf(),
    {
        self.lemma_semaphore_slots_kept(before);
        assert forall|k: int| 0 <= k < self.mutex_list@.len() implies #[trigger] self.mutex_slot_wf(
            k,
        ) by {
            assert(before.mutex_slot_wf(k));
            if k != h {
                assert(entry(self.mutex_available@, k) == entry(before.mutex_available@, k));
            }
        }
    }

    /// A step on semaphore `h` that keeps the semaphore ledger laid out, keeps
    /// every handle's circulation, changes the ledger at `h` alone, and leaves
    /// the ledger in agreement with the semaphore, keeps the whole process
    /// consistent.
    pub proof fn lemma_semaphore_step_wf(&self, before: &Self, h: int)
        requires
            before.wf(),
            self.touched_semaphore(before, h),
            laid_out(self.semaphore_state(), self.semaphore_list@.len() as int),
            same_beside(before.semaphore_state(), self.semaphore_state(), h),
            forall|k: int|
                0 <= k < self.semaphore_list@.len() ==> circulation(self.semaphore_state(), k)
                    == circulation(before.semaphore_state(), k),
            self.semaphore_slot_wf(h),
        ensures
            self.wf(),
    {
        self.lemma_mutex_slots_kept(before);
        self.lemma_condvars_kept(before);
        let s0 = before.semaphore_state();
        let s1 = self.semaphore_state();
        assert forall|k: int|
            0 <= k < self.semaphore_list@.len() implies #[trigger] self.semaphore_slot_wf(k) by {
            if k != h {
                assert(before.semaphore_slot_wf(k));
                assert(entry(s1.available, k) == entry(s0.available, k));
                if before.semaphore_list@[k].is_some() {
                    let queue = before.semaphore_list@[k].unwrap().wait_queue@;
                    assert forall|i: int| 0 <= i < queue.len() implies entry(
                        s1.need[#[trigger] queue[i] as int],
                        k,
                    ) >= 1 by {
                        let w = queue[i] as int;
                        assert(entry(s1.need[w], k) == entry(s0.need[w], k));
                    }
                }
            }
        }
    }

    /// A queue that names tasks of a process, each once, is no longer than
    /// the process has tasks.
    pub proof fn lemma_queue_bounded(queue: Seq<usize>, n: int)
        requires
            0 <= n,
            queue.no_duplicates(),
            forall|i: int| 0 <= i < queue.len() ==> #[trigger] queue[i] < n,
        ensures
            queue.len() <= n,
    {
        let ids = queue.map_values(|x: usize| x as int);
        assert forall|i: int, j: int|
            0 <= i < ids.len() && 0 <= j < ids.len() && i != j implies ids[i] != ids[j] by {
            assert(queue[i] != queue[j]);
        }
        ids.unique_seq_to_set();
        vstd::set_lib::lemma_int_range(0, n);
        assert forall|x: int| ids.to_set().contains(x) implies vstd::set_lib::set_int_range(
            0,
            n,
        ).contains(x) by {
            let i = choose|i: int| 0 <= i < ids.len() && ids[i] == x;
            assert(queue[i] < n);
        }
        vstd::set_lib::lemma_len_subset(ids.to_set(), vstd::set_lib::set_int_range(0, n));
    }

    /// A consistent process meets the safety check's demands in both classes.
    pub proof fn lemma_wf_checkable(&self)
        requires
            self.wf(),
        ensures
            checkable(self.mutex_state()),
            checkable(self.semaphore_state()),
    {
        let ms = self.mutex_state();
        assert forall|h: int| 0 <= h < ms.available.len() implies ms.available[h]
            + #[trigger] crate::detect::held_in_all(ms.allocation, h) <= usize::MAX by {
            assert(self.mutex_slot_wf(h));
        }
        let ss = self.semaphore_state();
        assert forall|h: int| 0 <= h < ss.available.len() implies ss.available[h]
            + #[trigger] crate::detect::held_in_all(ss.allocation, h) <= usize::MAX by {
            assert(self.semaphore_slot_wf(h));
        }
    }

    /// A process without tasks or primitives, with detection switched off.
    pub fn new() -> (process: Self)
        ensures
            process.wf(),
            !process.deadlock_det,
            process.tasks@.len() == 0,
            process.mutex_list@.len() == 0,
            process.semaphore_list@.len() == 0,
            process.condvar_list@.len() == 0,
    {
        ProcessControlBlock {
            deadlock_det: false,
            tasks: Vec::new(),
            mutex_list: Vec::new(),
            semaphore_list: Vec::new(),
            condvar_list: Vec::new(),
            mutex_available: Vec::new(),
            semaphore_available: Vec::new(),
        }
    }

    /// Adds a task and returns its identifier. The task is ready and its
    /// ledger rows are empty: it holds and requests nothing, and the rows grow
    /// when they are first written.
    pub fn add_task(&mut self) -> (tid: usize)
        requires
            old(self).wf(),
            old(self).tasks@.len() < isize::MAX,
        ensures
            final(self).wf(),
            tid == old(self).tasks@.len(),
            final(self).tasks@.len() == old(self).tasks@.len() + 1,
            forall|t: int|
                0 <= t < old(self).tasks@.len() ==> final(self).tasks@[t] == old(self).tasks@[t],
            final(self).tasks@[tid as int].inner.task_status == TaskStatus::Ready,
            final(self).tasks@[tid as int].inner.exit_code.is_none(),
            final(self).tasks@[tid as int].inner.wake_at.is_none(),
            final(self).tasks@[tid as int].inner.mutex_allocation@.len() == 0,
            final(self).tasks@[tid as int].inner.mutex_need@.len() == 0,
            final(self).tasks@[tid as int].inner.semaphore_allocation@.len() == 0,
            final(self).tasks@[tid as int].inner.semaphore_need@.len() == 0,
            final(self).deadlock_det == old(self).deadlock_det,
            final(self).mutex_list == old(self).mutex_list,
            final(self).semaphore_list == old(self).semaphore_list,
            final(self).condvar_list == old(self).condvar_list,
            final(self).mutex_available == old(self).mutex_available,
            final(self).semaphore_available == old(self).semaphore_available,
    {
        let tid: usize = self.tasks.len();
        self.tasks.push(TaskControlBlock::new(tid));
        proof {
            let empty = Seq::<usize>::empty();
            let m0 = old(self).mutex_state();
            let s0 = old(self).semaphore_state();
            assert(self.tasks@[tid as int].inner.mutex_allocation@ =~= empty);
            assert(self.tasks@[tid as int].inner.mutex_need@ =~= empty);
            assert(self.tasks@[tid as int].inner.semaphore_allocation@ =~= empty);
            assert(self.tasks@[tid as int].inner.semaphore_need@ =~= empty);
            assert(self.mutex_allocation_rows() =~= m0.allocation.push(empty));
            assert(self.mutex_need_rows() =~= m0.need.push(empty));
            assert(self.semaphore_allocation_rows() =~= s0.allocation.push(empty));
            assert(self.semaphore_need_rows() =~= s0.need.push(empty));
            assert forall|h: int|
                0 <= h < self.mutex_list@.len() implies #[trigger] self.mutex_slot_wf(h) by {
                assert(old(self).mutex_slot_wf(h));
                lemma_new_task_keeps_circulation(m0.allocation, h);
            }
            assert forall|h: int|
                0 <= h < self.semaphore_list@.len() implies #[trigger] self.semaphore_slot_wf(
                h,
            ) by {
                assert(old(self).semaphore_slot_wf(h));
                lemma_new_task_keeps_circulation(s0.allocation, h);
            }
        }
        tid
    }

    /// The task with identifier `tid`.
    pub fn get_task(&self, tid: usize) -> (task: &TaskControlBlock)
        requires
            tid < self.tasks@.len(),
        ensures
            *task == self.tasks@[tid as int],
    {
        &self.tasks[tid]
    }

    /// Adds `num` to the free instances of mutex `target_id`, or subtracts
    /// it; the vector grows with zeros if it is too short.
    pub fn adjust_mutex_available(&mut self, target_id: usize, num: usize, ifadd: bool)
        requires
            target_id < usize::MAX,
            0 <= shifted(old(self).mutex_available@, target_id as int, num as int, ifadd)
                <= usize::MAX,
        ensures
            final(self).mutex_available@ == with_entry(
                old(self).mutex_available@,
                target_id as int,
                shifted(old(self).mutex_available@, target_id as int, num as int, ifadd) as usize,
            ),
            final(self).deadlock_det == old(self).deadlock_det,
            final(self).tasks == old(self).tasks,
            final(self).mutex_list == old(self).mutex_list,
            final(self).semaphore_list == old(self).semaphore_list,
            final(self).condvar_list == old(self).condvar_list,
            final(self).semaphore_available == old(self).semaphore_available,
    {
        record(&mut self.mutex_available, target_id, num, ifadd);
    }

    /// Adds `num` to the free units of semaphore `target_id`, or subtracts
    /// it; the vector grows with zeros if it is too short.
    pub fn adjust_sema_available(&mut self, target_id: usize, num: usize, ifadd: bool)
        requires
            target_id < usize::MAX,
            0 <= shifted(old(self).semaphore_available@, target_id as int, num as int, ifadd)
                <= usize::MAX,
        ensures
            final(self).semaphore_available@ == with_entry(
                old(self).semaphore_available@,
                target_id as int,
                shifted(
                    old(self).semaphore_available@,
                    target_id as int,
                    num as int,
                    ifadd,
                ) as usize,
            ),
            final(self).deadlock_det == old(self).deadlock_det,
            final(self).tasks == old(self).tasks,
            final(self).mutex_list == old(self).mutex_list,
            final(self).semaphore_list == old(self).semaphore_list,
            final(self).condvar_list == old(self).condvar_list,
            final(self).mutex_available == old(self).mutex_available,
    {
        record(&mut self.semaphore_available, target_id, num, ifadd);
    }

    /// Sets the status of task `tid`.
    pub fn set_status(&mut self, tid: usize, status: TaskStatus)
        requires
            tid < old(self).tasks@.len(),
        ensures
            final(self).kept_beside_scheduling(old(self)),
            final(self).statuses() == old(self).statuses().update(tid as int, status),
            final(self).wake_times() == old(self).wake_times(),
    {
        self.tasks[tid].inner.task_status = status;
        assert(self.statuses() =~= old(self).statuses().update(tid as int, status));
        assert(self.wake_times() =~= old(self).wake_times());
        assert(self.mutex_allocation_rows() =~= old(self).mutex_allocation_rows());
        assert(self.mutex_need_rows() =~= old(self).mutex_need_rows());
        assert(self.semaphore_allocation_rows() =~= old(self).semaphore_allocation_rows());
        assert(self.semaphore_need_rows() =~= old(self).semaphore_need_rows());
    }

    /// Registers a wake-up time for task `tid` and blocks it.
    pub fn set_timer(&mut self, tid: usize, deadline: usize)
        requires
            tid < old(self).tasks@.len(),
        ensures
            final(self).kept_beside_scheduling(old(self)),
            final(self).statuses() == old(self).statuses().update(tid as int, TaskStatus::Blocked),
            final(self).wake_times() == old(self).wake_times().update(tid as int, Some(deadline)),
    {
        self.tasks[tid].inner.task_status = TaskStatus::Blocked;
        self.tasks[tid].inner.wake_at = Some(deadline);
        assert(self.statuses() =~= old(self).statuses().update(tid as int, TaskStatus::Blocked));
        assert(self.wake_times() =~= old(self).wake_times().update(tid as int, Some(deadline)));
        assert(self.mutex_allocation_rows() =~= old(self).mutex_allocation_rows());
        assert(self.mutex_need_rows() =~= old(self).mutex_need_rows());
        assert(self.semaphore_allocation_rows() =~= old(self).semaphore_allocation_rows());
        assert(self.semaphore_need_rows() =~= old(self).semaphore_need_rows());
    }

    /// A task's wake-up time has come at time `now_ms`.
    pub open spec fn due(wake_at: Option<usize>, now_ms: usize) -> bool {
        wake_at.is_some() && wake_at.unwrap() <= now_ms
    }

    /// Fires the timers that are due at time `now_ms`: each task whose
    /// wake-up time has come is made ready and its timer is cleared. The other
    /// tasks, the ledger and the primitives stay as they are.
    pub fn check_timer(&mut self, now_ms: usize)
        ensures
            final(self).kept_beside_scheduling(old(self)),
            old(self).wf() ==> final(self).wf(),
            forall|t: int|
                0 <= t < old(self).tasks@.len() ==> #[trigger] final(self).statuses()[t]
                    == if Self::due(old(self).wake_times()[t], now_ms) {
                    TaskStatus::Ready
                } else {
                    old(self).statuses()[t]
                },
            forall|t: int|
                0 <= t < old(self).tasks@.len() ==> #[trigger] final(self).wake_times()[t]
                    == if Self::due(old(self).wake_times()[t], now_ms) {
                    None
                } else {
                    old(self).wake_times()[t]
                },
    {
        let mut t: usize = 0;
        while t < self.tasks.len()
            invariant
                t <= self.tasks@.len(),
                self.deadlock_det == old(self).deadlock_det,
                self.mutex_list == old(self).mutex_list,
                self.semaphore_list == old(self).semaphore_list,
                self.condvar_list == old(self).condvar_list,
                self.mutex_available == old(self).mutex_available,
                self.semaphore_available == old(self).semaphore_available,
                self.tasks@.len() == old(self).tasks@.len(),
                forall|u: int|
                    0 <= u < self.tasks@.len() ==> (#[trigger] self.tasks@[u]).tid == old(
                        self,
                    ).tasks@[u].tid && self.tasks@[u].inner.same_rows(&old(self).tasks@[u].inner),
                forall|u: int|
                    0 <= u < t ==> (#[trigger] self.tasks@[u]).inner.task_status == if Self::due(
                        old(self).tasks@[u].inner.wake_at,
                        now_ms,
                    ) {
                        TaskStatus::Ready
                    } else {
                        old(self).tasks@[u].inner.task_status
                    },
                forall|u: int|
                    0 <= u < t ==> (#[trigger] self.tasks@[u]).inner.wake_at == if Self::due(
                        old(self).tasks@[u].inner.wake_at,
                        now_ms,
                    ) {
                        None
                    } else {
                        old(self).tasks@[u].inner.wake_at
                    },
                forall|u: int|
                    t <= u < self.tasks@.len() ==> #[trigger] self.tasks@[u] == old(self).tasks@[u],
            decreases self.tasks@.len() - t,
        {
            let due = match self.tasks[t].inner.wake_at {
                Some(deadline) => deadline <= now_ms,
                None => false,
            };
            if due {
                self.tasks[t].inner.task_status = TaskStatus::Ready;
                self.tasks[t].inner.wake_at = None;
            }
            t += 1;
        }
        proof {
            assert(self.mutex_allocation_rows() =~= old(self).mutex_allocation_rows());
            assert(self.mutex_need_rows() =~= old(self).mutex_need_rows());
            assert(self.semaphore_allocation_rows() =~= old(self).semaphore_allocation_rows());
            assert(self.semaphore_need_rows() =~= old(self).semaphore_need_rows());
            if old(self).wf() {
                self.lemma_wf_kept(old(self));
            }
        }
    }

    /// Records that task `tid` asks for mutex `h`.
    pub fn request_mutex(&mut self, tid: usize, h: usize)
        requires
            tid < old(self).tasks@.len(),
            h < usize::MAX,
            entry(old(self).mutex_state().need[tid as int], h as int) < usize::MAX,
        ensures
            final(self).kept_beside_mutex_ledger(old(self)),
            final(self).mutex_state() == requested(old(self).mutex_state(), tid as int, h as int),
    {
        self.tasks[tid].inner.adjust_mutex_need(h, 1, true);
        proof {
            let s = requested(old(self).mutex_state(), tid as int, h as int);
            assert(self.mutex_need_rows() =~= s.need);
            assert(self.mutex_allocation_rows() =~= s.allocation);
            self.lemma_only_mutex_rows_changed(old(self));
        }
    }

    /// Grants the request of task `tid` for mutex `h`: the need becomes a
    /// holding and the free instance is taken.
    pub fn grant_mutex(&mut self, tid: usize, h: usize)
        requires
            tid < old(self).tasks@.len(),
            h < usize::MAX,
            entry(old(self).mutex_state().need[tid as int], h as int) >= 1,
            entry(old(self).mutex_state().allocation[tid as int], h as int) < usize::MAX,
            entry(old(self).mutex_available@, h as int) >= 1,
        ensures
            final(self).kept_beside_mutex_ledger(old(self)),
            final(self).mutex_state() == granted(old(self).mutex_state(), tid as int, h as int),
    {
        self.tasks[tid].inner.adjust_mutex_need(h, 1, false);
        self.tasks[tid].inner.adjust_mutex_allocation(h, 1, true);
        self.adjust_mutex_available(h, 1, false);
        proof {
            let s = granted(old(self).mutex_state(), tid as int, h as int);
            assert(self.mutex_need_rows() =~= s.need);
            assert(self.mutex_allocation_rows() =~= s.allocation);
            self.lemma_only_mutex_rows_changed(old(self));
        }
    }

    /// Takes mutex `h` back from task `tid`: the holding becomes a free
    /// instance.
    pub fn return_mutex(&mut self, tid: usize, h: usize)
        requires
            tid < old(self).tasks@.len(),
            h < usize::MAX,
            entry(old(self).mutex_state().allocation[tid as int], h as int) >= 1,
            entry(old(self).mutex_available@, h as int) < usize::MAX,
        ensures
            final(self).kept_beside_mutex_ledger(old(self)),
            final(self).mutex_state() == returned(old(self).mutex_state(), tid as int, h as int),
    {
        self.adjust_mutex_available(h, 1, true);
        self.tasks[tid].inner.adjust_mutex_allocation(h, 1, false);
        proof {
            let s = returned(old(self).mutex_state(), tid as int, h as int);
            assert(self.mutex_allocation_rows() =~= s.allocation);
            assert(self.mutex_need_rows() =~= s.need);
            self.lemma_only_mutex_rows_changed(old(self));
        }
    }

    /// Records that task `tid` asks for one unit of semaphore `h`.
    pub fn request_sema(&mut self, tid: usize, h: usize)
        requires
            tid < old(self).tasks@.len(),
            h < usize::MAX,
            entry(old(self).semaphore_state().need[tid as int], h as int) < usize::MAX,
        ensures
            final(self).kept_beside_semaphore_ledger(old(self)),
            final(self).semaphore_state() == requested(
                old(self).semaphore_state(),
                tid as int,
                h as int,
            ),
    {
        self.tasks[tid].inner.adjust_sema_need(h, 1, true);
        proof {
            let s = requested(old(self).semaphore_state(), tid as int, h as int);
            assert(self.semaphore_need_rows() =~= s.need);
            assert(self.semaphore_allocation_rows() =~= s.allocation);
            self.lemma_only_sema_rows_changed(old(self));
        }
    }

    /// Grants the request of task `tid` for one unit of semaphore `h`: the
    /// need becomes a holding and a free unit is taken.
    pub fn grant_sema(&mut self, tid: usize, h: usize)
        requires
            tid < old(self).tasks@.len(),
            h < usize::MAX,
            entry(old(self).semaphore_state().need[tid as int], h as int) >= 1,
            entry(old(self).semaphore_state().allocation[tid as int], h as int) < usize::MAX,
            entry(old(self).semaphore_available@, h as int) >= 1,
        ensures
            final(self).kept_beside_semaphore_ledger(old(self)),
            final(self).semaphore_state() == granted(
                old(self).semaphore_state(),
                tid as int,
                h as int,
            ),
    {
        self.tasks[tid].inner.adjust_sema_need(h, 1, false);
        self.tasks[tid].inner.adjust_sema_allocation(h, 1, true);
        self.adjust_sema_available(h, 1, false);
        proof {
            let s = granted(old(self).semaphore_state(), tid as int, h as int);
            assert(self.semaphore_need_rows() =~= s.need);
            assert(self.semaphore_allocation_rows() =~= s.allocation);
            self.lemma_only_sema_rows_changed(old(self));
        }
    }

    /// Takes one unit of semaphore `h` back from task `tid`: the holding
    /// becomes a free unit.
    pub fn return_sema(&mut self, tid: usize, h: usize)
        requires
            tid < old(self).tasks@.len(),
            h < usize::MAX,
            entry(old(self).semaphore_state().allocation[tid as int], h as int) >= 1,
            entry(old(self).semaphore_available@, h as int) < usize::MAX,
        ensures
            final(self).kept_beside_semaphore_ledger(old(self)),
            final(self).semaphore_state() == returned(
                old(self).semaphore_state(),
                tid as int,
                h as int,
            ),
    {
        self.adjust_sema_available(h, 1, true);
        self.tasks[tid].inner.adjust_sema_allocation(h, 1, false);
        proof {
            let s = returned(old(self).semaphore_state(), tid as int, h as int);
            assert(self.semaphore_allocation_rows() =~= s.allocation);
            assert(self.semaphore_need_rows() =~= s.need);
            self.lemma_only_sema_rows_changed(old(self));
        }
    }

    /// Tasks that differ only in their mutex rows leave the views of
    /// everything else as they were.
    proof fn lemma_only_mutex_rows_changed(&self, before: &Self)
        requires
            self.tasks@.len() == before.tasks@.len(),
            forall|t: int|
                0 <= t < self.tasks@.len() ==> (#[trigger] self.tasks@[t]).tid
                    == before.tasks@[t].tid && self.tasks@[t].inner.same_but_mutex_rows(
                    &before.tasks@[t].inner,
                ),
            self.semaphore_available == before.semaphore_available,
        ensures
            self.semaphore_state() == before.semaphore_state(),
            self.statuses() == before.statuses(),
            self.wake_times() == before.wake_times(),
            self.same_task_ids(before),
    {
        assert(self.semaphore_allocation_rows() =~= before.semaphore_allocation_rows());
        assert(self.semaphore_need_rows() =~= before.semaphore_need_rows());
        assert(self.statuses() =~= before.statuses());
        assert(self.wake_times() =~= before.wake_times());
    }

    /// Tasks that differ only in their semaphore rows leave the views of
    /// everything else as they were.
    proof fn lemma_only_sema_rows_changed(&self, before: &Self)
        requires
            self.tasks@.len() == before.tasks@.len(),
            forall|t: int|
                0 <= t < self.tasks@.len() ==> (#[trigger] self.tasks@[t]).tid
                    == before.tasks@[t].tid && self.tasks@[t].inner.same_but_sema_rows(
                    &before.tasks@[t].inner,
                ),
            self.mutex_available == before.mutex_available,
        ensures
            self.mutex_state() == before.mutex_state(),
            self.statuses() == before.statuses(),
            self.wake_times() == before.wake_times(),
            self.same_task_ids(before),
    {
        assert(self.mutex_allocation_rows() =~= before.mutex_allocation_rows());
        assert(self.mutex_need_rows() =~= before.mutex_need_rows());
        assert(self.statuses() =~= before.statuses());
        assert(self.wake_times() =~= before.wake_times());
    }

    /// Copies of the allocation rows and of the need rows of all tasks, for
    /// the mutexes if `mutexes` and for the semaphores otherwise.
    fn matrices(&self, mutexes: bool) -> (m: (Vec<Vec<usize>>, Vec<Vec<usize>>))
        ensures
            rows(m.0@) == if mutexes {
                self.mutex_allocation_rows()
            } else {
                self.semaphore_allocation_rows()
            },
            rows(m.1@) == if mutexes {
                self.mutex_need_rows()
            } else {
                self.semaphore_need_rows()
            },
    {
        let mut allocation: Vec<Vec<usize>> = Vec::new();
        let mut need: Vec<Vec<usize>> = Vec::new();
        let mut t: usize = 0;
        while t < self.tasks.len()
            invariant
                t <= self.tasks@.len(),
                allocation@.len() == t,
                need@.len() == t,
                forall|u: int|
                    0 <= u < t ==> (#[trigger] allocation@[u])@ == if mutexes {
                        self.tasks@[u].inner.mutex_allocation@
                    } else {
                        self.tasks@[u].inner.semaphore_allocation@
                    },
                forall|u: int|
                    0 <= u < t ==> (#[trigger] need@[u])@ == if mutexes {
                        self.tasks@[u].inner.mutex_need@
                    } else {
                        self.tasks@[u].inner.semaphore_need@
                    },
            decreases self.tasks@.len() - t,
        {
            if mutexes {
                allocation.push(copy_of(&self.tasks[t].inner.mutex_allocation));
                need.push(copy_of(&self.tasks[t].inner.mutex_need));
            } else {
                allocation.push(copy_of(&self.tasks[t].inner.semaphore_allocation));
                need.push(copy_of(&self.tasks[t].inner.semaphore_need));
            }
            t += 1;
        }
        proof {
            if mutexes {
                assert(rows(allocation@) =~= self.mutex_allocation_rows());
                assert(rows(need@) =~= self.mutex_need_rows());
            } else {
                assert(rows(allocation@) =~= self.semaphore_allocation_rows());
                assert(rows(need@) =~= self.semaphore_need_rows());
            }
        }
        (allocation, need)
    }

    /// Whether a request of task `tid` for mutex `mutex_id` would leave the
    /// mutex ledger unsafe: with the request recorded, some task could not
    /// run to its end however the tasks are ordered. The ledger itself is
    /// only read.
    pub fn detect_mut_deadlock(&self, tid: usize, mutex_id: usize) -> (deadlock: bool)
        requires
            self.wf(),
            tid < self.tasks@.len(),
            mutex_id < usize::MAX,
            entry(self.mutex_state().need[tid as int], mutex_id as int) < usize::MAX,
        ensures
            deadlock == !safe_state(requested(self.mutex_state(), tid as int, mutex_id as int)),
    {
        let (allocation, mut need) = self.matrices(true);
        proof {
            self.lemma_wf_checkable();
            assert(need@[tid as int]@ == rows(need@)[tid as int]);
        }
        record(&mut need[tid], mutex_id, 1, true);
        proof {
            let s = requested(self.mutex_state(), tid as int, mutex_id as int);
            assert(rows(need@) =~= s.need);
            assert(state_of(self.mutex_available@, allocation@, need@) == s);
        }
        !is_safe(&self.mutex_available, &allocation, &need)
    }

    /// Whether a request of task `tid` for one unit of semaphore `sem_id`
    /// would leave the semaphore ledger unsafe: with the request recorded,
    /// some task could not run to its end however the tasks are ordered. The
    /// ledger itself is only read.
    pub fn detect_sema_deadlock(&self, tid: usize, sem_id: usize) -> (deadlock: bool)
        requires
            self.wf(),
            tid < self.tasks@.len(),
            sem_id < usize::MAX,
            entry(self.semaphore_state().need[tid as int], sem_id as int) < usize::MAX,
        ensures
            deadlock == !safe_state(requested(self.semaphore_state(), tid as int, sem_id as int)),
    {
        let (allocation, mut need) = self.matrices(false);
        proof {
            self.lemma_wf_checkable();
            assert(need@[tid as int]@ == rows(need@)[tid as int]);
        }
        record(&mut need[tid], sem_id, 1, true);
        proof {
            let s = requested(self.semaphore_state(), tid as int, sem_id as int);
            assert(rows(need@) =~= s.need);
            assert(state_of(self.semaphore_available@, allocation@, need@) == s);
        }
        !is_safe(&self.semaphore_available, &allocation, &need)
    }

    /// Starts mutex handle `h` afresh in the ledger: `count` free instances,
    /// and a zero in the mutex rows of every task, which grow if they are too
    /// short.
    pub fn reset_mutex_ledger(&mut self, h: usize, count: usize)
        requires
            h < usize::MAX,
        ensures
            final(self).kept_beside_mutex_ledger(old(self)),
            final(self).mutex_state() == reset(old(self).mutex_state(), h as int, count),
    {
        set_entry(&mut self.mutex_available, h, count);
        let mut t: usize = 0;
        while t < self.tasks.len()
            invariant
                h < usize::MAX,
                t <= self.tasks@.len(),
                self.deadlock_det == old(self).deadlock_det,
                self.mutex_list == old(self).mutex_list,
                self.semaphore_list == old(self).semaphore_list,
                self.condvar_list == old(self).condvar_list,
                self.semaphore_available == old(self).semaphore_available,
                self.mutex_available@ == with_entry(old(self).mutex_available@, h as int, count),
                self.tasks@.len() == old(self).tasks@.len(),
                forall|u: int|
                    0 <= u < self.tasks@.len() ==> (#[trigger] self.tasks@[u]).tid == old(
                        self,
                    ).tasks@[u].tid && self.tasks@[u].inner.same_but_mutex_rows(
                        &old(self).tasks@[u].inner,
                    ),
                forall|u: int|
                    0 <= u < t ==> (#[trigger] self.tasks@[u]).inner.mutex_allocation@
                        == with_entry(old(self).tasks@[u].inner.mutex_allocation@, h as int, 0)
                        && self.tasks@[u].inner.mutex_need@ == with_entry(
                        old(self).tasks@[u].inner.mutex_need@,
                        h as int,
                        0,
                    ),
                forall|u: int|
                    t <= u < self.tasks@.len() ==> #[trigger] self.tasks@[u] == old(self).tasks@[u],
            decreases self.tasks@.len() - t,
        {
            set_entry(&mut self.tasks[t].inner.mutex_allocation, h, 0);
            set_entry(&mut self.tasks[t].inner.mutex_need, h, 0);
            t += 1;
        }
        proof {
            let s = reset(old(self).mutex_state(), h as int, count);
            assert(self.mutex_allocation_rows() =~= s.allocation);
            assert(self.mutex_need_rows() =~= s.need);
            self.lemma_only_mutex_rows_changed(old(self));
        }
    }

    /// Starts semaphore handle `h` afresh in the ledger: `count` free units,
    /// and a zero in the semaphore rows of every task, which grow if they are
    /// too short.
    pub fn reset_semaphore_ledger(&mut self, h: usize, count: usize)
        requires
            h < usize::MAX,
        ensures
            final(self).kept_beside_semaphore_ledger(old(self)),
            final(self).semaphore_state() == reset(old(self).semaphore_state(), h as int, count),
    {
        set_entry(&mut self.semaphore_available, h, count);
        let mut t: usize = 0;
        while t < self.tasks.len()
            invariant
                h < usize::MAX,
                t <= self.tasks@.len(),
                self.deadlock_det == old(self).deadlock_det,
                self.mutex_list == old(self).mutex_list,
                self.semaphore_list == old(self).semaphore_list,
                self.condvar_list == old(self).condvar_list,
                self.mutex_available == old(self).mutex_available,
                self.semaphore_available@ == with_entry(
                    old(self).semaphore_available@,
                    h as int,
                    count,
                ),
                self.tasks@.len() == old(self).tasks@.len(),
                forall|u: int|
                    0 <= u < self.tasks@.len() ==> (#[trigger] self.tasks@[u]).tid == old(
                        self,
                    ).tasks@[u].tid && self.tasks@[u].inner.same_but_sema_rows(
                        &old(self).tasks@[u].inner,
                    ),
                forall|u: int|
                    0 <= u < t ==> (#[trigger] self.tasks@[u]).inner.semaphore_allocation@
                        == with_entry(old(self).tasks@[u].inner.semaphore_allocation@, h as int, 0)
                        && self.tasks@[u].inner.semaphore_need@ == with_entry(
                        old(self).tasks@[u].inner.semaphore_need@,
                        h as int,
                        0,
                    ),
                forall|u: int|
                    t <= u < self.tasks@.len() ==> #[trigger] self.tasks@[u] == old(self).tasks@[u],
            decreases self.tasks@.len() - t,
        {
            set_entry(&mut self.tasks[t].inner.semaphore_allocation, h, 0);
            set_entry(&mut self.tasks[t].inner.semaphore_need, h, 0);
            t += 1;
        }
        proof {
            let s = reset(old(self).semaphore_state(), h as int, count);
            assert(self.semaphore_allocation_rows() =~= s.allocation);
            assert(self.semaphore_need_rows() =~= s.need);
            self.lemma_only_sema_rows_changed(old(self));
        }
    }
}

} // verus!
