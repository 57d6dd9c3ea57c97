//! Mutexes with two waiting strategies.
//!
//! A mutex never suspends anything itself. `lock` reports whether the caller
//! now holds the mutex and, if not, how it has to wait; `unlock` names the
//! waiter that is to be made runnable. A task that did not get the mutex asks
//! for it again when it next runs.
use std::collections::VecDeque;
use vstd::prelude::*;

verus! {

/// What `lock` decided for the caller.
#[derive(Copy, Clone, PartialEq, Eq, Structural, Debug)]
pub enum LockOutcome {
    /// The mutex was free and the caller holds it now.
    Acquired,
    /// The mutex is held and waits by polling: the caller yields and asks again.
    Busy,
    /// The mutex is held and the caller has been put on its wait queue: the
    /// caller is suspended until an `unlock` wakes it, and then asks again.
    Queued,
}

/// A mutex that is waited for by polling its flag.
#[derive(Debug)]
pub struct MutexSpin {
    /// Whether the mutex is held.
    pub locked: bool,
}

/// A mutex that is waited for on a queue of suspended tasks.
#[derive(Debug)]
pub struct MutexBlocking {
    /// Whether the mutex is held.
    pub locked: bool,
    /// The suspended tasks, longest wait first.
    pub wait_queue: VecDeque<usize>,
}

/// A mutex of either strategy.
#[derive(Debug)]
pub enum Mutex {
    /// Waiting means polling.
    Spin(MutexSpin),
    /// Waiting means being queued and suspended.
    Blocking(MutexBlocking),
}

impl Mutex {
    /// Whether the mutex is held.
    pub open spec fn is_locked(&self) -> bool {
        match self {
            Mutex::Spin(m) => m.locked,
            Mutex::Blocking(m) => m.locked,
        }
    }

    /// Whether waiters of this mutex are queued and suspended.
    pub open spec fn is_blocking(&self) -> bool {
        self is Blocking
    }

    /// The queued waiters, longest wait first; none for a polling mutex.
    pub open spec fn waiters(&self) -> Seq<usize> {
        match self {
            Mutex::Spin(_) => Seq::empty(),
            Mutex::Blocking(m) => m.wait_queue@,
        }
    }

    /// A free mutex with no waiters, of the blocking strategy if `blocking`.
    pub fn new(blocking: bool) -> (mutex: Self)
        ensures
            !mutex.is_locked(),
            mutex.is_blocking() == blocking,
            mutex.waiters().len() == 0,
    {
        if blocking {
            Mutex::Blocking(MutexBlocking { locked: false, wait_queue: VecDeque::new() })
        } else {
            Mutex::Spin(MutexSpin { locked: false })
        }
    }

    /// Whether the mutex is held.
    pub fn locked(&self) -> (held: bool)
        ensures
            held == self.is_locked(),
    {
        match self {
            Mutex::Spin(m) => m.locked,
            Mutex::Blocking(m) => m.locked,
        }
    }

    /// Task `tid` asks for the mutex. A free mutex is taken. A held one is
    /// left as it is, except that a blocking mutex puts the caller at the end
    /// of its wait queue.
    pub fn lock(&mut self, tid: usize) -> (outcome: LockOutcome)
        ensures
            final(self).is_blocking() == old(self).is_blocking(),
            final(self).is_locked(),
            outcome == LockOutcome::Acquired <==> !old(self).is_locked(),
            outcome == LockOutcome::Queued <==> old(self).is_locked() && old(self).is_blocking(),
            outcome == LockOutcome::Busy <==> old(self).is_locked() && !old(self).is_blocking(),
            final(self).waiters() == if outcome == LockOutcome::Queued {
                old(self).waiters().push(tid)
            } else {
                old(self).waiters()
            },
    {
        match self {
            Mutex::Spin(m) => {
                if m.locked {
                    LockOutcome::Busy
                } else {
                    m.locked = true;
                    LockOutcome::Acquired
                }
            },
            Mutex::Blocking(m) => {
                if m.locked {
                    m.wait_queue.push_back(tid);
                    LockOutcome::Queued
                } else {
                    m.locked = true;
                    LockOutcome::Acquired
                }
            },
        }
    }

    /// Releases the mutex and takes the longest-waiting task, if there is
    /// one, off the wait queue: that task is to be made runnable.
    pub fn unlock(&mut self) -> (woken: Option<usize>)
        ensures
            final(self).is_blocking() == old(self).is_blocking(),
            !final(self).is_locked(),
            woken == if old(self).waiters().len() > 0 {
                Some(old(self).waiters()[0])
            } else {
                None
            },
            final(self).waiters() == if old(self).waiters().len() > 0 {
                old(self).waiters().drop_first()
            } else {
                old(self).waiters()
            },
    {
        match self {
            Mutex::Spin(m) => {
                m.locked = false;
                None
            },
            Mutex::Blocking(m) => {
                m.locked = false;
                m.wait_queue.pop_front()
            },
        }
    }
}

} // verus!
