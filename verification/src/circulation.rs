//! How the ledger of one resource class changes, and what the changes keep.
//!
//! The instances of a handle in circulation are the free ones together with
//! those that the tasks hold. Requests move nothing; a grant moves one
//! instance from the free ones to a task, and a release moves it back.
use crate::detect::{held_by, held_in_all, ResourceState};
use crate::ledger::{entry, lemma_with_entry, with_entry};
use vstd::prelude::*;

verus! {

/// The instances of handle `h` in circulation: free, or held by some task.
pub open spec fn circulation(s: ResourceState, h: int) -> int {
    entry(s.available, h) + held_in_all(s.allocation, h)
}

/// `s` with the need of task `t` for handle `h` set to `value`.
pub open spec fn with_need(s: ResourceState, t: int, h: int, value: usize) -> ResourceState {
    ResourceState { need: s.need.update(t, with_entry(s.need[t], h, value)), ..s }
}

/// `s` with the holding of task `t` of handle `h` set to `value`.
pub open spec fn with_allocation(s: ResourceState, t: int, h: int, value: usize) -> ResourceState {
    ResourceState { allocation: s.allocation.update(t, with_entry(s.allocation[t], h, value)), ..s }
}

/// `s` with the free instances of handle `h` set to `value`.
pub open spec fn with_available(s: ResourceState, h: int, value: usize) -> ResourceState {
    ResourceState { available: with_entry(s.available, h, value), ..s }
}

/// Task `t` asks for one instance of `h`.
pub open spec fn requested(s: ResourceState, t: int, h: int) -> ResourceState {
    with_need(s, t, h, (entry(s.need[t], h) + 1) as usize)
}

/// Task `t` takes its request for one instance of `h` back.
pub open spec fn withdrawn(s: ResourceState, t: int, h: int) -> ResourceState {
    with_need(s, t, h, (entry(s.need[t], h) - 1) as usize)
}

/// The request of task `t` for one instance of `h` is granted: the instance
/// passes from the free ones to the task.
pub open spec fn granted(s: ResourceState, t: int, h: int) -> ResourceState {
    with_available(
        with_allocation(withdrawn(s, t, h), t, h, (entry(s.allocation[t], h) + 1) as usize),
        h,
        (entry(s.available, h) - 1) as usize,
    )
}

/// Task `t` gives one instance of `h` back to the free ones.
pub open spec fn returned(s: ResourceState, t: int, h: int) -> ResourceState {
    with_available(
        with_allocation(s, t, h, (entry(s.allocation[t], h) - 1) as usize),
        h,
        (entry(s.available, h) + 1) as usize,
    )
}

/// Handle `h` starts afresh with `count` free instances: no task holds or
/// requests any.
pub open spec fn reset(s: ResourceState, h: int, count: usize) -> ResourceState {
    ResourceState {
        available: with_entry(s.available, h, count),
        allocation: Seq::new(s.allocation.len(), |t: int| with_entry(s.allocation[t], h, 0)),
        need: Seq::new(s.need.len(), |t: int| with_entry(s.need[t], h, 0)),
    }
}

/// The ledger once a request of task `t` for `h` is admitted: the request is
/// recorded unless one is outstanding already.
pub open spec fn admitted(s: ResourceState, t: int, h: int) -> ResourceState {
    if entry(s.need[t], h) == 0 {
        requested(s, t, h)
    } else {
        s
    }
}

/// Matrices that agree on handle `h` in their first `n` rows hold the same
/// there.
pub proof fn lemma_held_rows_agree(
    a: Seq<Seq<usize>>,
    b: Seq<Seq<usize>>,
    done: Set<int>,
    h: int,
    n: int,
)
    requires
        forall|t: int| 0 <= t < n ==> entry(#[trigger] a[t], h) == entry(b[t], h),
    ensures
        held_by(a, done, h, n) == held_by(b, done, h, n),
    decreases n,
{
    if n > 0 {
        lemma_held_rows_agree(a, b, done, h, n - 1);
        assert(entry(a[n - 1], h) == entry(b[n - 1], h));
    }
}

/// Where no task holds anything of handle `h`, nothing is held.
pub proof fn lemma_held_none(a: Seq<Seq<usize>>, done: Set<int>, h: int, n: int)
    requires
        forall|t: int| 0 <= t < n ==> entry(#[trigger] a[t], h) == 0,
    ensures
        held_by(a, done, h, n) == 0,
    decreases n,
{
    if n > 0 {
        lemma_held_none(a, done, h, n - 1);
        assert(entry(a[n - 1], h) == 0);
    }
}

/// Replacing the row of one task changes what is held by the difference
/// between the two rows.
pub proof fn lemma_held_row_replaced(
    a: Seq<Seq<usize>>,
    t: int,
    row: Seq<usize>,
    done: Set<int>,
    h: int,
    n: int,
)
    requires
        0 <= t < a.len(),
        n <= a.len(),
    ensures
        held_by(a.update(t, row), done, h, n) == held_by(a, done, h, n) + if t < n
            && done.contains(t) {
            entry(row, h) - entry(a[t], h)
        } else {
            0
        },
    decreases n,
{
    if n > 0 {
        lemma_held_row_replaced(a, t, row, done, h, n - 1);
    }
}

/// Each task holds no more of a handle than all tasks together.
pub proof fn lemma_held_covers_task(a: Seq<Seq<usize>>, t: int, h: int)
    requires
        0 <= t < a.len(),
    ensures
        entry(a[t], h) <= held_in_all(a, h),
{
    let all = Set::new(|u: int| true);
    let only = Set::<int>::empty().insert(t);
    crate::detect::lemma_held_by_empty(a, h, a.len() as int);
    crate::detect::lemma_held_by_insert(a, Set::empty(), t, h, a.len() as int);
    crate::detect::lemma_held_by_mono(a, only, all, h, a.len() as int);
}

/// Two different tasks together hold no more of a handle than all tasks.
pub proof fn lemma_held_covers_two(a: Seq<Seq<usize>>, t: int, u: int, h: int)
    requires
        0 <= t < a.len(),
        0 <= u < a.len(),
        t != u,
    ensures
        entry(a[t], h) + entry(a[u], h) <= held_in_all(a, h),
{
    let all = Set::new(|u: int| true);
    let one = Set::<int>::empty().insert(t);
    let two = one.insert(u);
    crate::detect::lemma_held_by_empty(a, h, a.len() as int);
    crate::detect::lemma_held_by_insert(a, Set::empty(), t, h, a.len() as int);
    crate::detect::lemma_held_by_insert(a, one, u, h, a.len() as int);
    crate::detect::lemma_held_by_mono(a, two, all, h, a.len() as int);
}

/// A request, or its withdrawal, leaves every handle's circulation as it was.
pub proof fn lemma_need_keeps_circulation(s: ResourceState, t: int, h: int, value: usize, k: int)
    ensures
        circulation(with_need(s, t, h, value), k) == circulation(s, k),
{
}

/// A grant leaves every handle's circulation as it was.
pub proof fn lemma_grant_keeps_circulation(s: ResourceState, t: int, h: int, k: int)
    requires
        0 <= t < s.allocation.len(),
        0 <= h,
        entry(s.available, h) >= 1,
        circulation(s, h) <= usize::MAX,
    ensures
        circulation(granted(s, t, h), k) == circulation(s, k),
{
    let n = s.allocation.len() as int;
    let all = Set::new(|u: int| true);
    let row = with_entry(s.allocation[t], h, (entry(s.allocation[t], h) + 1) as usize);
    lemma_held_covers_task(s.allocation, t, h);
    lemma_held_row_replaced(s.allocation, t, row, all, k, n);
    lemma_with_entry(
        s.allocation[t],
        h,
        (entry(s.allocation[t], h) + 1) as usize,
        k,
    );
    lemma_with_entry(s.available, h, (entry(s.available, h) - 1) as usize, k);
}

/// A release leaves every handle's circulation as it was.
pub proof fn lemma_return_keeps_circulation(s: ResourceState, t: int, h: int, k: int)
    requires
        0 <= t < s.allocation.len(),
        0 <= h,
        entry(s.allocation[t], h) >= 1,
        circulation(s, h) <= usize::MAX,
    ensures
        circulation(returned(s, t, h), k) == circulation(s, k),
{
    let n = s.allocation.len() as int;
    let all = Set::new(|u: int| true);
    let row = with_entry(s.allocation[t], h, (entry(s.allocation[t], h) - 1) as usize);
    lemma_held_covers_task(s.allocation, t, h);
    lemma_held_row_replaced(s.allocation, t, row, all, k, n);
    lemma_with_entry(
        s.allocation[t],
        h,
        (entry(s.allocation[t], h) - 1) as usize,
        k,
    );
    lemma_with_entry(s.available, h, (entry(s.available, h) + 1) as usize, k);
}

/// After a reset handle `h` has `count` instances in circulation, all free,
/// and every other handle's circulation is as it was.
pub proof fn lemma_reset_circulation(s: ResourceState, h: int, count: usize, k: int)
    requires
        0 <= h,
    ensures
        circulation(reset(s, h, count), k) == if k == h {
            count as int
        } else {
            circulation(s, k)
        },
{
    let r = reset(s, h, count);
    let n = s.allocation.len() as int;
    let all = Set::new(|u: int| true);
    lemma_with_entry(s.available, h, count, k);
    assert forall|t: int| 0 <= t < n implies entry(#[trigger] r.allocation[t], k) == if k == h {
        0
    } else {
        entry(s.allocation[t], k)
    } by {
        lemma_with_entry(s.allocation[t], h, 0, k);
    }
    if k == h {
        lemma_held_none(r.allocation, all, k, n);
    } else {
        lemma_held_rows_agree(r.allocation, s.allocation, all, k, n);
    }
}

/// A new task, which holds nothing, leaves every handle's circulation as it
/// was.
pub proof fn lemma_new_task_keeps_circulation(a: Seq<Seq<usize>>, h: int)
    ensures
        held_in_all(a.push(Seq::empty()), h) == held_in_all(a, h),
{
    let all = Set::new(|u: int| true);
    let b = a.push(Seq::empty());
    assert forall|t: int| 0 <= t < a.len() implies entry(#[trigger] b[t], h) == entry(a[t], h) by {
        assert(b[t] == a[t]);
    }
    lemma_held_rows_agree(b, a, all, h, a.len() as int);
    assert(b[a.len() as int] == Seq::<usize>::empty());
}

/// The ledger `s` is laid out for `n` handles: it has a count of free
/// instances for each, one need row per allocation row, no row longer than
/// `n`, and no task asks for more than one instance of a handle.
pub open spec fn laid_out(s: ResourceState, n: int) -> bool {
    &&& s.available.len() == n
    &&& s.allocation.len() == s.need.len()
    &&& forall|t: int| 0 <= t < s.allocation.len() ==> (#[trigger] s.allocation[t]).len() <= n
    &&& forall|t: int| 0 <= t < s.need.len() ==> (#[trigger] s.need[t]).len() <= n
    &&& forall|t: int, h: int|
        0 <= t < s.need.len() && 0 <= h ==> #[trigger] entry(s.need[t], h) <= 1
}

/// `b` differs from `a` at most in what it records for handle `h`.
pub open spec fn same_beside(a: ResourceState, b: ResourceState, h: int) -> bool {
    &&& a.available.len() == b.available.len()
    &&& a.allocation.len() == b.allocation.len()
    &&& a.need.len() == b.need.len()
    &&& forall|k: int|
        0 <= k && k != h ==> #[trigger] entry(b.available, k) == entry(a.available, k)
    &&& forall|t: int, k: int|
        0 <= t < a.need.len() && 0 <= k && k != h ==> #[trigger] entry(b.need[t], k) == entry(
            a.need[t],
            k,
        )
    &&& forall|t: int, k: int|
        0 <= t < a.allocation.len() && 0 <= k && k != h ==> #[trigger] entry(b.allocation[t], k)
            == entry(a.allocation[t], k)
}

/// A first request keeps the ledger laid out, records one need, and touches
/// nothing else.
pub proof fn lemma_request_step(s: ResourceState, t: int, h: int, n: int)
    requires
        laid_out(s, n),
        0 <= t < s.need.len(),
        0 <= h < n,
        entry(s.need[t], h) == 0,
    ensures
        laid_out(requested(s, t, h), n),
        same_beside(s, requested(s, t, h), h),
        entry(requested(s, t, h).need[t], h) == 1,
        forall|u: int|
            0 <= u < s.need.len() && u != t ==> #[trigger] requested(s, t, h).need[u] == s.need[u],
        forall|k: int| #[trigger] circulation(requested(s, t, h), k) == circulation(s, k),
{
    let r = requested(s, t, h);
    assert forall|u: int, k: int| 0 <= u < r.need.len() && 0 <= k implies #[trigger] entry(
        r.need[u],
        k,
    ) == if u == t && k == h {
        1
    } else {
        entry(s.need[u], k)
    } by {
        lemma_with_entry(s.need[t], h, 1, k);
    }
    lemma_with_entry(s.need[t], h, 1, h);
}

/// A grant keeps the ledger laid out and every handle's circulation: one
/// need of the task becomes a holding, one free instance is taken, and
/// nothing else is touched.
pub proof fn lemma_grant_step(s: ResourceState, t: int, h: int, n: int)
    requires
        laid_out(s, n),
        0 <= t < s.need.len(),
        0 <= h < n,
        entry(s.need[t], h) >= 1,
        entry(s.available, h) >= 1,
        circulation(s, h) <= usize::MAX,
    ensures
        laid_out(granted(s, t, h), n),
        same_beside(s, granted(s, t, h), h),
        entry(granted(s, t, h).need[t], h) == entry(s.need[t], h) - 1,
        entry(granted(s, t, h).allocation[t], h) == entry(s.allocation[t], h) + 1,
        entry(granted(s, t, h).available, h) == entry(s.available, h) - 1,
        forall|u: int|
            0 <= u < s.need.len() && u != t ==> #[trigger] granted(s, t, h).need[u] == s.need[u],
        forall|u: int|
            0 <= u < s.need.len() && u != t ==> #[trigger] granted(s, t, h).allocation[u]
                == s.allocation[u],
        forall|k: int| #[trigger] circulation(granted(s, t, h), k) == circulation(s, k),
{
    let g = granted(s, t, h);
    lemma_held_covers_task(s.allocation, t, h);
    let need = (entry(s.need[t], h) - 1) as usize;
    let held = (entry(s.allocation[t], h) + 1) as usize;
    let free = (entry(s.available, h) - 1) as usize;
    assert forall|u: int, k: int| 0 <= u < g.need.len() && 0 <= k implies #[trigger] entry(
        g.need[u],
        k,
    ) == if u == t && k == h {
        need as int
    } else {
        entry(s.need[u], k)
    } by {
        lemma_with_entry(s.need[t], h, need, k);
    }
    assert forall|u: int, k: int| 0 <= u < g.allocation.len() && 0 <= k implies #[trigger] entry(
        g.allocation[u],
        k,
    ) == if u == t && k == h {
        held as int
    } else {
        entry(s.allocation[u], k)
    } by {
        lemma_with_entry(s.allocation[t], h, held, k);
    }
    assert forall|k: int| 0 <= k implies #[trigger] entry(g.available, k) == if k == h {
        free as int
    } else {
        entry(s.available, k)
    } by {
        lemma_with_entry(s.available, h, free, k);
    }
    lemma_with_entry(s.need[t], h, need, h);
    lemma_with_entry(s.allocation[t], h, held, h);
    lemma_with_entry(s.available, h, free, h);
    assert forall|k: int| #[trigger] circulation(g, k) == circulation(s, k) by {
        lemma_grant_keeps_circulation(s, t, h, k);
    }
}

/// A release keeps the ledger laid out and every handle's circulation: one
/// holding of the task becomes a free instance, and nothing else is touched.
pub proof fn lemma_return_step(s: ResourceState, t: int, h: int, n: int)
    requires
        laid_out(s, n),
        0 <= t < s.need.len(),
        0 <= h < n,
        entry(s.allocation[t], h) >= 1,
        circulation(s, h) <= usize::MAX,
    ensures
        laid_out(returned(s, t, h), n),
        same_beside(s, returned(s, t, h), h),
        returned(s, t, h).need == s.need,
        entry(returned(s, t, h).allocation[t], h) == entry(s.allocation[t], h) - 1,
        entry(returned(s, t, h).available, h) == entry(s.available, h) + 1,
        forall|u: int|
            0 <= u < s.need.len() && u != t ==> #[trigger] returned(s, t, h).allocation[u]
                == s.allocation[u],
        forall|k: int| #[trigger] circulation(returned(s, t, h), k) == circulation(s, k),
{
    let r = returned(s, t, h);
    lemma_held_covers_task(s.allocation, t, h);
    let held = (entry(s.allocation[t], h) - 1) as usize;
    let free = (entry(s.available, h) + 1) as usize;
    assert forall|u: int, k: int| 0 <= u < r.allocation.len() && 0 <= k implies #[trigger] entry(
        r.allocation[u],
        k,
    ) == if u == t && k == h {
        held as int
    } else {
        entry(s.allocation[u], k)
    } by {
        lemma_with_entry(s.allocation[t], h, held, k);
    }
    assert forall|k: int| 0 <= k implies #[trigger] entry(r.available, k) == if k == h {
        free as int
    } else {
        entry(s.available, k)
    } by {
        lemma_with_entry(s.available, h, free, k);
    }
    lemma_with_entry(s.allocation[t], h, held, h);
    lemma_with_entry(s.available, h, free, h);
    assert forall|k: int| #[trigger] circulation(r, k) == circulation(s, k) by {
        lemma_return_keeps_circulation(s, t, h, k);
    }
}

/// A reset of handle `h`, which is in use or the next new one, lays the
/// ledger out for that handle too: its circulation is the new count, all of
/// it free, no task holds or asks for it, and nothing else is touched.
pub proof fn lemma_reset_step(s: ResourceState, h: int, count: usize, n: int)
    requires
        laid_out(s, n),
        0 <= h <= n,
    ensures
        laid_out(
            reset(s, h, count),
            if h < n {
                n
            } else {
                n + 1
            },
        ),
        forall|k: int| 0 <= k && k != h ==> #[trigger] entry(reset(s, h, count).available, k)
            == entry(s.available, k),
        forall|t: int, k: int|
            0 <= t < s.need.len() && 0 <= k ==> #[trigger] entry(reset(s, h, count).need[t], k)
                == if k == h {
                0
            } else {
                entry(s.need[t], k)
            },
        forall|t: int|
            0 <= t < s.allocation.len() ==> entry(#[trigger] reset(s, h, count).allocation[t], h)
                == 0 && reset(s, h, count).allocation[t].len() > h && reset(
                s,
                h,
                count,
            ).need[t].len() > h,
        entry(reset(s, h, count).available, h) == count,
        forall|k: int| 0 <= k ==> #[trigger] circulation(reset(s, h, count), k) == if k == h {
            count as int
        } else {
            circulation(s, k)
        },
{
    let r = reset(s, h, count);
    lemma_with_entry(s.available, h, count, h);
    assert forall|k: int| 0 <= k implies #[trigger] entry(r.available, k) == if k == h {
        count as int
    } else {
        entry(s.available, k)
    } by {
        lemma_with_entry(s.available, h, count, k);
    }
    assert forall|t: int, k: int| 0 <= t < s.need.len() && 0 <= k implies #[trigger] entry(
        r.need[t],
        k,
    ) == if k == h {
        0
    } else {
        entry(s.need[t], k)
    } by {
        lemma_with_entry(s.need[t], h, 0, k);
    }
    assert forall|t: int| 0 <= t < s.allocation.len() implies entry(
        #[trigger] r.allocation[t],
        h,
    ) == 0 && r.allocation[t].len() > h && r.need[t].len() > h && r.allocation[t].len() <= (if h
        < n {
        n
    } else {
        n + 1
    }) && r.need[t].len() <= (if h < n {
        n
    } else {
        n + 1
    }) by {
        lemma_with_entry(s.allocation[t], h, 0, h);
        lemma_with_entry(s.need[t], h, 0, h);
    }
    assert forall|k: int| 0 <= k implies #[trigger] circulation(r, k) == if k == h {
        count as int
    } else {
        circulation(s, k)
    } by {
        lemma_reset_circulation(s, h, count, k);
    }
}

} // verus!
