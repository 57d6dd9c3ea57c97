//! Tasks of a process and their rows of the resource ledger.
use crate::ledger::{record, shifted, with_entry};
use vstd::prelude::*;

verus! {

/// Whether a task runs, could run, or waits to be woken.
#[derive(Copy, Clone, PartialEq, Eq, Structural, Debug)]
pub enum TaskStatus {
    /// Ready to run.
    Ready,
    /// Running.
    Running,
    /// Blocked until another task, or a timer, wakes it.
    Blocked,
}

/// The mutable part of a task: its scheduling state and its ledger rows.
///
/// Each row counts instances per handle of one resource class. A row may be
/// shorter than the number of handles in use; the missing entries are zero.
#[derive(Debug)]
pub struct TaskControlBlockInner {
    /// The execution status of the task.
    pub task_status: TaskStatus,
    /// Set when the task has exited.
    pub exit_code: Option<i32>,
    /// The time at which a sleeping task is due to be woken.
    pub wake_at: Option<usize>,
    /// Mutexes held, per mutex handle.
    pub mutex_allocation: Vec<usize>,
    /// Semaphore units held, per semaphore handle.
    pub semaphore_allocation: Vec<usize>,
    /// Mutexes requested and not yet granted, per mutex handle.
    pub mutex_need: Vec<usize>,
    /// Semaphore units requested and not yet granted, per semaphore handle.
    pub semaphore_need: Vec<usize>,
}

/// A task: its identity within the process, and its mutable part.
#[derive(Debug)]
pub struct TaskControlBlock {
    /// The task's index among the tasks of its process.
    pub tid: usize,
    /// Scheduling state and ledger rows.
    pub inner: TaskControlBlockInner,
}

impl TaskControlBlockInner {
    /// A ready task that holds and requests nothing: all four rows are empty.
    pub fn new() -> (inner: Self)
        ensures
            inner.task_status == TaskStatus::Ready,
            inner.exit_code.is_none(),
            inner.wake_at.is_none(),
            inner.mutex_allocation@.len() == 0,
            inner.semaphore_allocation@.len() == 0,
            inner.mutex_need@.len() == 0,
            inner.semaphore_need@.len() == 0,
    {
        TaskControlBlockInner {
            task_status: TaskStatus::Ready,
            exit_code: None,
            wake_at: None,
            mutex_allocation: Vec::new(),
            semaphore_allocation: Vec::new(),
            mutex_need: Vec::new(),
            semaphore_need: Vec::new(),
        }
    }

    /// The task's execution status.
    pub fn get_status(&self) -> (status: TaskStatus)
        ensures
            status == self.task_status,
    {
        self.task_status
    }

    /// Everything but the mutex allocation row is the same in `self` and `other`.
    pub open spec fn same_but_mutex_allocation(&self, other: &Self) -> bool {
        &&& self.task_status == other.task_status
        &&& self.exit_code == other.exit_code
        &&& self.wake_at == other.wake_at
        &&& self.semaphore_allocation == other.semaphore_allocation
        &&& self.mutex_need == other.mutex_need
        &&& self.semaphore_need == other.semaphore_need
    }

    /// Everything but the semaphore allocation row is the same in `self` and `other`.
    pub open spec fn same_but_sema_allocation(&self, other: &Self) -> bool {
        &&& self.task_status == other.task_status
        &&& self.exit_code == other.exit_code
        &&& self.wake_at == other.wake_at
        &&& self.mutex_allocation == other.mutex_allocation
        &&& self.mutex_need == other.mutex_need
        &&& self.semaphore_need == other.semaphore_need
    }

    /// Everything but the mutex need row is the same in `self` and `other`.
    pub open spec fn same_but_mutex_need(&self, other: &Self) -> bool {
        &&& self.task_status == other.task_status
        &&& self.exit_code == other.exit_code
        &&& self.wake_at == other.wake_at
        &&& self.mutex_allocation == other.mutex_allocation
        &&& self.semaphore_allocation == other.semaphore_allocation
        &&& self.semaphore_need == other.semaphore_need
    }

    /// Everything but the semaphore need row is the same in `self` and `other`.
    pub open spec fn same_but_sema_need(&self, other: &Self) -> bool {
        &&& self.task_status == other.task_status
        &&& self.exit_code == other.exit_code
        &&& self.wake_at == other.wake_at
        &&& self.mutex_allocation == other.mutex_allocation
        &&& self.semaphore_allocation == other.semaphore_allocation
        &&& self.mutex_need == other.mutex_need
    }

    /// Everything but the two mutex rows is the same in `self` and `other`.
    pub open spec fn same_but_mutex_rows(&self, other: &Self) -> bool {
        &&& self.task_status == other.task_status
        &&& self.exit_code == other.exit_code
        &&& self.wake_at == other.wake_at
        &&& self.semaphore_allocation == other.semaphore_allocation
        &&& self.semaphore_need == other.semaphore_need
    }

    /// Everything but the two semaphore rows is the same in `self` and `other`.
    pub open spec fn same_but_sema_rows(&self, other: &Self) -> bool {
        &&& self.task_status == other.task_status
        &&& self.exit_code == other.exit_code
        &&& self.wake_at == other.wake_at
        &&& self.mutex_allocation == other.mutex_allocation
        &&& self.mutex_need == other.mutex_need
    }

    /// The ledger rows are the same in `self` and `other`, and so is the exit
    /// code.
    pub open spec fn same_rows(&self, other: &Self) -> bool {
        &&& self.exit_code == other.exit_code
        &&& self.mutex_allocation == other.mutex_allocation
        &&& self.mutex_need == other.mutex_need
        &&& self.semaphore_allocation == other.semaphore_allocation
        &&& self.semaphore_need == other.semaphore_need
    }

    /// Adds `num` to the count of mutex `target_id` held by the task, or
    /// subtracts it; the row grows with zeros if it is too short.
    pub fn adjust_mutex_allocation(&mut self, target_id: usize, num: usize, ifadd: bool)
        requires
            target_id < usize::MAX,
            0 <= shifted(old(self).mutex_allocation@, target_id as int, num as int, ifadd)
                <= usize::MAX,
        ensures
            final(self).mutex_allocation@ == with_entry(
                old(self).mutex_allocation@,
                target_id as int,
                shifted(old(self).mutex_allocation@, target_id as int, num as int, ifadd) as usize,
            ),
            final(self).same_but_mutex_allocation(old(self)),
    {
        record(&mut self.mutex_allocation, target_id, num, ifadd);
    }

    /// Adds `num` to the units of semaphore `target_id` held by the task, or
    /// subtracts it; the row grows with zeros if it is too short.
    pub fn adjust_sema_allocation(&mut self, target_id: usize, num: usize, ifadd: bool)
        requires
            target_id < usize::MAX,
            0 <= shifted(old(self).semaphore_allocation@, target_id as int, num as int, ifadd)
                <= usize::MAX,
        ensures
            final(self).semaphore_allocation@ == with_entry(
                old(self).semaphore_allocation@,
                target_id as int,
                shifted(
                    old(self).semaphore_allocation@,
                    target_id as int,
                    num as int,
                    ifadd,
                ) as usize,
            ),
            final(self).same_but_sema_allocation(old(self)),
    {
        record(&mut self.semaphore_allocation, target_id, num, ifadd);
    }

    /// Adds `num` to the task's outstanding requests for mutex `target_id`, or
    /// subtracts it; the row grows with zeros if it is too short.
    pub fn adjust_mutex_need(&mut self, target_id: usize, num: usize, ifadd: bool)
        requires
            target_id < usize::MAX,
            0 <= shifted(old(self).mutex_need@, target_id as int, num as int, ifadd) <= usize::MAX,
        ensures
            final(self).mutex_need@ == with_entry(
                old(self).mutex_need@,
                target_id as int,
                shifted(old(self).mutex_need@, target_id as int, num as int, ifadd) as usize,
            ),
            final(self).same_but_mutex_need(old(self)),
    {
        record(&mut self.mutex_need, target_id, num, ifadd);
    }

    /// Adds `num` to the task's outstanding requests for semaphore `target_id`,
    /// or subtracts it; the row grows with zeros if it is too short.
    pub fn adjust_sema_need(&mut self, target_id: usize, num: usize, ifadd: bool)
        requires
            target_id < usize::MAX,
            0 <= shifted(old(self).semaphore_need@, target_id as int, num as int, ifadd)
                <= usize::MAX,
        ensures
            final(self).semaphore_need@ == with_entry(
                old(self).semaphore_need@,
                target_id as int,
                shifted(old(self).semaphore_need@, target_id as int, num as int, ifadd) as usize,
            ),
            final(self).same_but_sema_need(old(self)),
    {
        record(&mut self.semaphore_need, target_id, num, ifadd);
    }
}

impl TaskControlBlock {
    /// A new task with index `tid`: ready, with empty ledger rows.
    pub fn new(tid: usize) -> (task: Self)
        ensures
            task.tid == tid,
            task.inner.task_status == TaskStatus::Ready,
            task.inner.exit_code.is_none(),
            task.inner.wake_at.is_none(),
            task.inner.mutex_allocation@.len() == 0,
            task.inner.semaphore_allocation@.len() == 0,
            task.inner.mutex_need@.len() == 0,
            task.inner.semaphore_need@.len() == 0,
    {
        TaskControlBlock { tid, inner: TaskControlBlockInner::new() }
    }

    /// Exclusive access to the mutable part of the task.
    pub fn inner_exclusive_access(&mut self) -> (inner: &mut TaskControlBlockInner)
        ensures
            *inner == old(self).inner,
            final(self).inner == *final(inner),
            final(self).tid == old(self).tid,
    {
        &mut self.inner
    }
}

} // verus!
