//! Synchronization primitives and a resource ledger with deadlock detection
//! for the tasks of one process.
pub mod circulation;
pub mod condvar;
pub mod detect;
pub mod laws;
pub mod ledger;
pub mod mutex;
pub mod process;
pub mod semaphore;
pub mod syscall;
pub mod task;
