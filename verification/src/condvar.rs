//! Condition variables.
//!
//! A condition variable owns nothing but its queue of suspended tasks. The
//! mutex that goes with a wait is handed in by the caller each time.
use crate::mutex::Mutex;
use std::collections::VecDeque;
use vstd::prelude::*;

verus! {

/// A condition variable: the tasks that wait for a signal.
#[derive(Debug)]
pub struct Condvar {
    /// The suspended tasks, longest wait first.
    pub wait_queue: VecDeque<usize>,
}

impl Condvar {
    /// A condition variable on which nobody waits.
    pub fn new() -> (condvar: Self)
        ensures
            condvar.wait_queue@.len() == 0,
    {
        Condvar { wait_queue: VecDeque::new() }
    }

    /// Takes the longest-waiting task off the queue, if any: it is to be made
    /// runnable. With nobody waiting the signal is lost and nothing changes.
    pub fn signal(&mut self) -> (woken: Option<usize>)
        ensures
            woken == if old(self).wait_queue@.len() > 0 {
                Some(old(self).wait_queue@[0])
            } else {
                None
            },
            final(self).wait_queue@ == if old(self).wait_queue@.len() > 0 {
                old(self).wait_queue@.drop_first()
            } else {
                old(self).wait_queue@
            },
    {
        self.wait_queue.pop_front()
    }

    /// Task `tid` starts to wait: it releases `mutex` and is put at the end of
    /// the queue in one step, so that no signal can come in between. The
    /// caller has to be suspended; once woken it asks for the mutex again. The
    /// result is the waiter of `mutex` that the release woke.
    pub fn wait(&mut self, tid: usize, mutex: &mut Mutex) -> (woken: Option<usize>)
        ensures
            final(self).wait_queue@ == old(self).wait_queue@.push(tid),
            final(mutex).is_blocking() == old(mutex).is_blocking(),
            !final(mutex).is_locked(),
            woken == if old(mutex).waiters().len() > 0 {
                Some(old(mutex).waiters()[0])
            } else {
                None
            },
            final(mutex).waiters() == if old(mutex).waiters().len() > 0 {
                old(mutex).waiters().drop_first()
            } else {
                old(mutex).waiters()
            },
    {
        let woken = mutex.unlock();
        self.wait_queue.push_back(tid);
        woken
    }
}

} // verus!
