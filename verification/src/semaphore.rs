//! Counting semaphores.
//!
//! The counter is signed: while tasks wait it is negative, and its magnitude
//! is the number of waiters. A semaphore never suspends anything itself:
//! `down` reports whether the caller has to be suspended, and `up` names the
//! waiter that is to be made runnable.
use std::collections::VecDeque;
use vstd::prelude::*;

verus! {

/// A counting semaphore with its queue of suspended tasks.
#[derive(Debug)]
pub struct Semaphore {
    /// Free units when positive; the number of waiters, negated, otherwise.
    pub count: isize,
    /// The suspended tasks, longest wait first.
    pub wait_queue: VecDeque<usize>,
}

impl Semaphore {
    /// The queue holds exactly the waiters that the counter counts.
    pub open spec fn wf(&self) -> bool {
        self.wait_queue@.len() == if self.count < 0 {
            -self.count
        } else {
            0
        }
    }

    /// A semaphore with `res_count` free units and no waiters.
    pub fn new(res_count: usize) -> (sem: Self)
        requires
            res_count <= isize::MAX,
        ensures
            sem.wf(),
            sem.count == res_count,
            sem.wait_queue@.len() == 0,
    {
        Semaphore { count: res_count as isize, wait_queue: VecDeque::new() }
    }

    /// Returns one unit. If tasks wait, the longest-waiting one is taken off
    /// the queue and receives the unit: it is to be made runnable.
    pub fn up(&mut self) -> (woken: Option<usize>)
        requires
            old(self).wf(),
            old(self).count < isize::MAX,
        ensures
            final(self).wf(),
            final(self).count == old(self).count + 1,
            woken == if old(self).count < 0 {
                Some(old(self).wait_queue@[0])
            } else {
                None
            },
            final(self).wait_queue@ == if old(self).count < 0 {
                old(self).wait_queue@.drop_first()
            } else {
                old(self).wait_queue@
            },
    {
        self.count = self.count + 1;
        if self.count <= 0 {
            self.wait_queue.pop_front()
        } else {
            None
        }
    }

    /// Task `tid` takes one unit. If none is free the caller is put at the end
    /// of the wait queue and has to be suspended until an `up` wakes it; the
    /// result says whether that is so.
    pub fn down(&mut self, tid: usize) -> (blocked: bool)
        requires
            old(self).wf(),
            old(self).count > isize::MIN,
        ensures
            final(self).wf(),
            final(self).count == old(self).count - 1,
            blocked == (old(self).count <= 0),
            final(self).wait_queue@ == if old(self).count <= 0 {
                old(self).wait_queue@.push(tid)
            } else {
                old(self).wait_queue@
            },
    {
        self.count = self.count - 1;
        if self.count < 0 {
            self.wait_queue.push_back(tid);
            true
        } else {
            false
        }
    }
}

} // verus!
