//! The safety check that decides whether every task can still run to its end.
//!
//! A state of one resource class is the vector of free instances and, for
//! each task, the instances it holds and the instances it still asks for. The
//! state is safe when the tasks can be put in an order in which each one finds
//! its request covered by what is free together with what the tasks before it
//! have handed back.
use crate::ledger::entry;
use vstd::prelude::*;

verus! {

/// The ledger of one resource class, as the safety check reads it.
pub struct ResourceState {
    /// Free instances per handle.
    pub available: Seq<usize>,
    /// Per task, the instances held per handle.
    pub allocation: Seq<Seq<usize>>,
    /// Per task, the instances requested and not yet granted per handle.
    pub need: Seq<Seq<usize>>,
}

/// The rows of a matrix as sequences.
pub open spec fn rows(m: Seq<Vec<usize>>) -> Seq<Seq<usize>> {
    Seq::new(m.len(), |t: int| m[t]@)
}

/// The state that the three arguments of the check describe.
pub open spec fn state_of(
    available: Seq<usize>,
    allocation: Seq<Vec<usize>>,
    need: Seq<Vec<usize>>,
) -> ResourceState {
    ResourceState { available, allocation: rows(allocation), need: rows(need) }
}

/// Instances of handle `h` held by those of the first `n` tasks that are in `done`.
pub open spec fn held_by(allocation: Seq<Seq<usize>>, done: Set<int>, h: int, n: int) -> int
    decreases n,
{
    if n <= 0 {
        0
    } else {
        held_by(allocation, done, h, n - 1) + if done.contains(n - 1) {
            entry(allocation[n - 1], h)
        } else {
            0
        }
    }
}

/// Instances of handle `h` held by all tasks together.
pub open spec fn held_in_all(allocation: Seq<Seq<usize>>, h: int) -> int {
    held_by(allocation, Set::new(|t: int| true), h, allocation.len() as int)
}

/// Free instances of `h` once the tasks in `done` have released what they hold.
pub open spec fn work_at(s: ResourceState, done: Set<int>, h: int) -> int {
    entry(s.available, h) + held_by(s.allocation, done, h, s.allocation.len() as int)
}

/// Task `t` finds all it asks for once the tasks in `done` have finished.
pub open spec fn can_finish(s: ResourceState, done: Set<int>, t: int) -> bool {
    forall|h: int| 0 <= h ==> #[trigger] entry(s.need[t], h) <= work_at(s, done, h)
}

/// The tasks at the first `i` places of `order`.
pub open spec fn prefix_set(order: Seq<int>, i: int) -> Set<int> {
    Set::new(|t: int| exists|j: int| 0 <= j < i && j < order.len() && order[j] == t)
}

/// `order` names every task, and each task in it can finish after those
/// before it.
pub open spec fn safe_order(s: ResourceState, order: Seq<int>) -> bool {
    &&& forall|t: int| 0 <= t < s.allocation.len() ==> order.contains(t)
    &&& forall|i: int|
        0 <= i < order.len() ==> 0 <= #[trigger] order[i] < s.allocation.len() && can_finish(
            s,
            prefix_set(order, i),
            order[i],
        )
}

/// Every task can run to its end in some order.
pub open spec fn safe_state(s: ResourceState) -> bool {
    exists|order: Seq<int>| safe_order(s, order)
}

/// The check's demands on a state: one need row per allocation row, no
/// allocation row longer than the vector of free instances, and each handle's
/// instances in circulation within the machine word.
pub open spec fn checkable(s: ResourceState) -> bool {
    &&& s.allocation.len() == s.need.len()
    &&& forall|t: int|
        0 <= t < s.allocation.len() ==> (#[trigger] s.allocation[t]).len() <= s.available.len()
    &&& forall|h: int|
        0 <= h < s.available.len() ==> s.available[h] + #[trigger] held_in_all(s.allocation, h)
            <= usize::MAX
}

/// A larger set of tasks holds at least as much.
pub proof fn lemma_held_by_mono(
    allocation: Seq<Seq<usize>>,
    a: Set<int>,
    b: Set<int>,
    h: int,
    n: int,
)
    requires
        a.subset_of(b),
    ensures
        held_by(allocation, a, h, n) <= held_by(allocation, b, h, n),
    decreases n,
{
    if n > 0 {
        lemma_held_by_mono(allocation, a, b, h, n - 1);
    }
}

/// Adding a task to the set adds what that task holds.
pub proof fn lemma_held_by_insert(
    allocation: Seq<Seq<usize>>,
    done: Set<int>,
    t: int,
    h: int,
    n: int,
)
    requires
        !done.contains(t),
    ensures
        held_by(allocation, done.insert(t), h, n) == held_by(allocation, done, h, n) + if 0 <= t
            < n {
            entry(allocation[t], h)
        } else {
            0
        },
    decreases n,
{
    if n > 0 {
        lemma_held_by_insert(allocation, done, t, h, n - 1);
    }
}

/// Beyond the longest allocation row nothing is held.
pub proof fn lemma_held_by_beyond(allocation: Seq<Seq<usize>>, done: Set<int>, h: int, n: int)
    requires
        n <= allocation.len(),
        forall|t: int| 0 <= t < allocation.len() ==> (#[trigger] allocation[t]).len() <= h,
    ensures
        held_by(allocation, done, h, n) == 0,
    decreases n,
{
    if n > 0 {
        lemma_held_by_beyond(allocation, done, h, n - 1);
    }
}

/// A task that can finish after some tasks can finish after more of them.
pub proof fn lemma_can_finish_mono(s: ResourceState, a: Set<int>, b: Set<int>, t: int)
    requires
        a.subset_of(b),
        can_finish(s, a, t),
    ensures
        can_finish(s, b, t),
{
    assert forall|h: int| 0 <= h implies #[trigger] entry(s.need[t], h) <= work_at(s, b, h) by {
        lemma_held_by_mono(s.allocation, a, b, h, s.allocation.len() as int);
    }
}

/// If no task outside `done` can finish after the tasks in `done`, then every
/// prefix of a safe order lies within `done`.
pub proof fn lemma_safe_prefix_within(s: ResourceState, order: Seq<int>, done: Set<int>, i: int)
    requires
        safe_order(s, order),
        0 <= i <= order.len(),
        forall|t: int|
            0 <= t < s.allocation.len() && !done.contains(t) ==> !can_finish(s, done, t),
    ensures
        prefix_set(order, i).subset_of(done),
    decreases i,
{
    if i > 0 {
        lemma_safe_prefix_within(s, order, done, i - 1);
        let t = order[i - 1];
        assert(can_finish(s, prefix_set(order, i - 1), t));
        lemma_can_finish_mono(s, prefix_set(order, i - 1), done, t);
        assert(done.contains(t));
        assert forall|u: int| prefix_set(order, i).contains(u) implies done.contains(u) by {
            let j = choose|j: int| 0 <= j < i && j < order.len() && order[j] == u;
            if j < i - 1 {
                assert(prefix_set(order, i - 1).contains(u));
            }
        }
    }
}

/// A state in which the tasks outside `done` are stuck, and there is one, is
/// not safe.
pub proof fn lemma_stuck_is_unsafe(s: ResourceState, done: Set<int>, u: int)
    requires
        0 <= u < s.allocation.len(),
        !done.contains(u),
        forall|t: int|
            0 <= t < s.allocation.len() && !done.contains(t) ==> !can_finish(s, done, t),
    ensures
        !safe_state(s),
{
    if safe_state(s) {
        let order = choose|order: Seq<int>| safe_order(s, order);
        lemma_safe_prefix_within(s, order, done, order.len() as int);
        assert(order.contains(u));
        let j = choose|j: int| 0 <= j < order.len() && order[j] == u;
        assert(prefix_set(order, order.len() as int).contains(u));
    }
}

/// The empty set of tasks holds nothing.
pub proof fn lemma_held_by_empty(allocation: Seq<Seq<usize>>, h: int, n: int)
    ensures
        held_by(allocation, Set::empty(), h, n) == 0,
    decreases n,
{
    if n > 0 {
        lemma_held_by_empty(allocation, h, n - 1);
    }
}

/// The tasks marked as finished.
pub open spec fn done_set(finish: Seq<bool>) -> Set<int> {
    Set::new(|t: int| 0 <= t < finish.len() && finish[t])
}

/// How many of the first `n` tasks are not marked as finished.
pub open spec fn unfinished(finish: Seq<bool>, n: int) -> nat
    decreases n,
{
    if n <= 0 || n > finish.len() {
        0
    } else {
        unfinished(finish, n - 1) + if finish[n - 1] {
            0nat
        } else {
            1nat
        }
    }
}

/// Marking an unfinished task as finished lowers the count by one.
pub proof fn lemma_unfinished_mark(finish: Seq<bool>, t: int, n: int)
    requires
        0 <= t < finish.len(),
        !finish[t],
        0 <= n <= finish.len(),
    ensures
        unfinished(finish.update(t, true), n) + (if t < n {
            1nat
        } else {
            0nat
        }) == unfinished(finish, n),
    decreases n,
{
    if n > 0 {
        lemma_unfinished_mark(finish, t, n - 1);
    }
}

/// What the simulation keeps true: `work` is what is free after the finished
/// tasks released their holdings, and `order` lists the finished tasks, each
/// able to finish after those before it.
pub open spec fn simulated(
    s: ResourceState,
    work: Seq<usize>,
    finish: Seq<bool>,
    order: Seq<int>,
) -> bool {
    &&& finish.len() == s.allocation.len()
    &&& work.len() == s.available.len()
    &&& forall|h: int| 0 <= h < work.len() ==> #[trigger] work[h] == work_at(s, done_set(finish), h)
    &&& prefix_set(order, order.len() as int) =~= done_set(finish)
    &&& forall|i: int|
        0 <= i < order.len() ==> 0 <= #[trigger] order[i] < s.allocation.len() && can_finish(
            s,
            prefix_set(order, i),
            order[i],
        )
}

/// During the simulation `work` covers a row exactly when the task can finish
/// after the tasks finished so far.
pub proof fn lemma_simulated_fits(
    s: ResourceState,
    work: Seq<usize>,
    finish: Seq<bool>,
    order: Seq<int>,
    t: int,
)
    requires
        checkable(s),
        simulated(s, work, finish, order),
        0 <= t < s.need.len(),
    ensures
        can_finish(s, done_set(finish), t) <==> (forall|h: int|
            0 <= h ==> #[trigger] entry(s.need[t], h) <= entry(work, h)),
{
    let done = done_set(finish);
    assert forall|h: int| 0 <= h implies entry(work, h) == work_at(s, done, h) by {
        if h >= work.len() {
            lemma_held_by_beyond(s.allocation, done, h, s.allocation.len() as int);
        }
    }
    if can_finish(s, done, t) {
        assert forall|h: int| 0 <= h implies #[trigger] entry(s.need[t], h) <= entry(work, h) by {
            assert(entry(s.need[t], h) <= work_at(s, done, h));
        }
    }
    if forall|h: int| 0 <= h ==> #[trigger] entry(s.need[t], h) <= entry(work, h) {
        assert forall|h: int| 0 <= h implies #[trigger] entry(s.need[t], h) <= work_at(
            s,
            done,
            h,
        ) by {
            assert(entry(s.need[t], h) <= entry(work, h));
        }
    }
}

/// Finishing task `t`, which can finish, keeps the simulation's facts for the
/// work vector with `t`'s holdings added.
pub proof fn lemma_simulated_step(
    s: ResourceState,
    work: Seq<usize>,
    finish: Seq<bool>,
    order: Seq<int>,
    t: int,
    next: Seq<usize>,
)
    requires
        checkable(s),
        simulated(s, work, finish, order),
        0 <= t < finish.len(),
        !finish[t],
        can_finish(s, done_set(finish), t),
        next.len() == work.len(),
        forall|h: int| 0 <= h < next.len() ==> #[trigger] next[h] == work[h] + entry(
            s.allocation[t],
            h,
        ),
    ensures
        simulated(s, next, finish.update(t, true), order.push(t)),
{
    let done = done_set(finish);
    let finish2 = finish.update(t, true);
    let order2 = order.push(t);
    assert(done_set(finish2) =~= done.insert(t));
    assert forall|h: int| 0 <= h < next.len() implies #[trigger] next[h] == work_at(
        s,
        done_set(finish2),
        h,
    ) by {
        lemma_held_by_insert(s.allocation, done, t, h, s.allocation.len() as int);
        assert(work[h] == work_at(s, done, h));
    }
    assert forall|i: int| 0 <= i <= order.len() implies prefix_set(order2, i) =~= prefix_set(
        order,
        i,
    ) by {
        assert forall|u: int| prefix_set(order2, i).contains(u) implies prefix_set(
            order,
            i,
        ).contains(u) by {
            let j = choose|j: int| 0 <= j < i && j < order2.len() && order2[j] == u;
            assert(order[j] == u);
        }
        assert forall|u: int| prefix_set(order, i).contains(u) implies prefix_set(
            order2,
            i,
        ).contains(u) by {
            let j = choose|j: int| 0 <= j < i && j < order.len() && order[j] == u;
            assert(order2[j] == u);
        }
    }
    assert(prefix_set(order2, order.len() as int) =~= done);
    assert forall|u: int| done.insert(t).contains(u) implies prefix_set(
        order2,
        order2.len() as int,
    ).contains(u) by {
        if u == t {
            assert(order2[order.len() as int] == t);
        } else {
            assert(prefix_set(order, order.len() as int).contains(u));
            let j = choose|j: int| 0 <= j < order.len() && j < order.len() && order[j] == u;
            assert(order2[j] == u);
        }
    }
    assert forall|u: int| prefix_set(order2, order2.len() as int).contains(u) implies done.insert(
        t,
    ).contains(u) by {
        let j = choose|j: int| 0 <= j < order2.len() && j < order2.len() && order2[j] == u;
        if j < order.len() {
            assert(order[j] == u);
            assert(prefix_set(order, order.len() as int).contains(u));
        }
    }
    assert(prefix_set(order2, order2.len() as int) =~= done_set(finish2));
    assert forall|i: int| 0 <= i < order2.len() implies 0 <= #[trigger] order2[i]
        < s.allocation.len() && can_finish(s, prefix_set(order2, i), order2[i]) by {
        if i < order.len() {
            assert(order2[i] == order[i]);
            assert(prefix_set(order2, i) =~= prefix_set(order, i));
        } else {
            assert(prefix_set(order2, i) =~= done);
        }
    }
}

/// While a task is unfinished, adding its holdings to `work` stays within the
/// machine word.
pub proof fn lemma_simulated_room(
    s: ResourceState,
    work: Seq<usize>,
    finish: Seq<bool>,
    order: Seq<int>,
    t: int,
    h: int,
)
    requires
        checkable(s),
        simulated(s, work, finish, order),
        0 <= t < finish.len(),
        !finish[t],
        0 <= h < work.len(),
    ensures
        work[h] + entry(s.allocation[t], h) <= usize::MAX,
{
    let done = done_set(finish);
    let n = s.allocation.len() as int;
    lemma_held_by_insert(s.allocation, done, t, h, n);
    lemma_held_by_mono(s.allocation, done.insert(t), Set::new(|t: int| true), h, n);
    assert(work[h] == work_at(s, done, h));
    assert(s.available[h] + held_in_all(s.allocation, h) <= usize::MAX);
}

/// Whether `work` covers every entry of `need`.
fn row_fits(need: &Vec<usize>, work: &Vec<usize>) -> (fits: bool)
    ensures
        fits == (forall|h: int| 0 <= h ==> #[trigger] entry(need@, h) <= entry(work@, h)),
{
    let mut h: usize = 0;
    while h < need.len()
        invariant
            h <= need.len(),
            forall|k: int| 0 <= k < h ==> #[trigger] entry(need@, k) <= entry(work@, k),
        decreases need.len() - h,
    {
        let covered = if h < work.len() {
            need[h] <= work[h]
        } else {
            need[h] == 0
        };
        if !covered {
            assert(!(entry(need@, h as int) <= entry(work@, h as int)));
            return false;
        }
        h += 1;
    }
    true
}

/// Adds the holdings in `held` to `work`, handle by handle.
fn release(work: &mut Vec<usize>, held: &Vec<usize>)
    requires
        held.len() <= old(work).len(),
        forall|h: int| 0 <= h < old(work).len() ==> old(work)@[h] + entry(held@, h) <= usize::MAX,
    ensures
        final(work)@.len() == old(work)@.len(),
        forall|h: int|
            0 <= h < old(work)@.len() ==> #[trigger] final(work)@[h] == old(work)@[h] + entry(
                held@,
                h,
            ),
{
    let mut h: usize = 0;
    while h < held.len()
        invariant
            h <= held.len(),
            held.len() <= work.len(),
            work@.len() == old(work)@.len(),
            forall|k: int| 0 <= k < h ==> #[trigger] work@[k] == old(work)@[k] + entry(held@, k),
            forall|k: int| h <= k < work@.len() ==> #[trigger] work@[k] == old(work)@[k],
            forall|k: int|
                0 <= k < old(work).len() ==> old(work)@[k] + entry(held@, k) <= usize::MAX,
        decreases held.len() - h,
    {
        assert(old(work)@[h as int] + entry(held@, h as int) <= usize::MAX);
        let sum: usize = work[h] + held[h];
        work.set(h, sum);
        h += 1;
    }
}

/// Runs the safety check on one resource class: starting from the free
/// instances, it repeatedly lets a task finish whose whole request is covered
/// and takes back what that task holds, until a pass finds no such task. The
/// state is safe exactly when every task has finished by then.
pub fn is_safe(
    available: &Vec<usize>,
    allocation: &Vec<Vec<usize>>,
    need: &Vec<Vec<usize>>,
) -> (safe: bool)
    requires
        checkable(state_of(available@, allocation@, need@)),
    ensures
        safe == safe_state(state_of(available@, allocation@, need@)),
{
    let ghost s = state_of(available@, allocation@, need@);
    let n: usize = allocation.len();
    let mut work: Vec<usize> = Vec::new();
    let mut h: usize = 0;
    while h < available.len()
        invariant
            h <= available.len(),
            work@ == available@.subrange(0, h as int),
        decreases available.len() - h,
    {
        work.push(available[h]);
        assert(work@ =~= available@.subrange(0, h + 1));
        h += 1;
    }
    assert(work@ =~= available@);
    let mut finish: Vec<bool> = Vec::new();
    let mut t: usize = 0;
    while t < n
        invariant
            t <= n,
            finish@.len() == t,
            forall|k: int| 0 <= k < t ==> !finish@[k],
        decreases n - t,
    {
        finish.push(false);
        t += 1;
    }
    let ghost mut order: Seq<int> = Seq::empty();
    proof {
        assert(done_set(finish@) =~= Set::empty());
        assert(prefix_set(order, 0) =~= Set::empty());
        assert forall|h: int| 0 <= h < work@.len() implies #[trigger] work@[h] == work_at(
            s,
            done_set(finish@),
            h,
        ) by {
            lemma_held_by_empty(s.allocation, h, n as int);
        }
    }
    let mut progress: bool = true;
    while progress
        invariant
            n == allocation.len(),
            s == state_of(available@, allocation@, need@),
            checkable(s),
            simulated(s, work@, finish@, order),
            !progress ==> forall|u: int|
                0 <= u < n && !finish@[u] ==> !can_finish(s, done_set(finish@), u),
        decreases unfinished(finish@, n as int), (if progress { 1int } else { 0int }),
    {
        progress = false;
        let ghost before = unfinished(finish@, n as int);
        let mut t: usize = 0;
        while t < n
            invariant
                t <= n,
                n == allocation.len(),
                s == state_of(available@, allocation@, need@),
                checkable(s),
                simulated(s, work@, finish@, order),
                !progress ==> forall|u: int|
                    0 <= u < t && !finish@[u] ==> !can_finish(s, done_set(finish@), u),
                !progress ==> unfinished(finish@, n as int) == before,
                progress ==> unfinished(finish@, n as int) < before,
            decreases n - t,
        {
            if !finish[t] {
                let fits = row_fits(&need[t], &work);
                proof {
                    lemma_simulated_fits(s, work@, finish@, order, t as int);
                }
                if fits {
                    proof {
                        assert forall|h: int| 0 <= h < work@.len() implies work@[h] + entry(
                            allocation@[t as int]@,
                            h,
                        ) <= usize::MAX by {
                            lemma_simulated_room(s, work@, finish@, order, t as int, h);
                        }
                    }
                    let ghost work0 = work@;
                    assert(s.allocation[t as int].len() <= s.available.len());
                    release(&mut work, &allocation[t]);
                    proof {
                        lemma_simulated_step(s, work0, finish@, order, t as int, work@);
                        lemma_unfinished_mark(finish@, t as int, n as int);
                        order = order.push(t as int);
                    }
                    finish.set(t, true);
                    progress = true;
                }
            }
            t += 1;
        }
    }
    let mut u: usize = 0;
    while u < n
        invariant
            u <= n,
            n == finish@.len(),
            n == s.allocation.len(),
            s == state_of(available@, allocation@, need@),
            forall|k: int| 0 <= k < u ==> finish@[k],
            forall|v: int| 0 <= v < n && !finish@[v] ==> !can_finish(s, done_set(finish@), v),
        decreases n - u,
    {
        if !finish[u] {
            proof {
                lemma_stuck_is_unsafe(s, done_set(finish@), u as int);
            }
            return false;
        }
        u += 1;
    }
    proof {
        assert forall|t: int| 0 <= t < s.allocation.len() implies order.contains(t) by {
            assert(done_set(finish@).contains(t));
            assert(prefix_set(order, order.len() as int).contains(t));
        }
        assert(safe_order(s, order));
    }
    true
}

} // verus!
