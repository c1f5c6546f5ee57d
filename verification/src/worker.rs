//! The dispatch ledger of a fixed pool of worker threads.
//!
//! Each thread has a counter of the tasks handed to it and not yet finished.
//! A new task goes to the thread with the smallest counter, the lowest index
//! winning a tie; the thread takes one off its counter when it has delivered
//! the result. The pool is busy exactly while some counter is above zero.
//!
//! The ledger decides where work goes. Queues, threads and the channel that
//! carries results belong to the program that owns the ledger.

use vstd::prelude::*;

verus! {

/// Sum of all counters.
pub open spec fn total(loads: Seq<int>) -> int
    decreases loads.len(),
{
    if loads.len() == 0 {
        0
    } else {
        total(loads.drop_last()) + loads.last()
    }
}

/// No counter is negative.
pub open spec fn all_non_negative(loads: Seq<int>) -> bool {
    forall|i: int| 0 <= i < loads.len() ==> 0 <= #[trigger] loads[i]
}

/// Some counter is not zero.
pub open spec fn some_nonzero(loads: Seq<int>) -> bool {
    exists|i: int| 0 <= i < loads.len() && #[trigger] loads[i] != 0
}

/// `n` is the thread that the next task goes to: no thread carries less, and
/// every thread before it carries more.
pub open spec fn is_least_loaded(loads: Seq<int>, n: int) -> bool {
    &&& 0 <= n < loads.len()
    &&& forall|j: int| 0 <= j < loads.len() ==> loads[n] <= #[trigger] loads[j]
    &&& forall|j: int| 0 <= j < n ==> loads[n] < #[trigger] loads[j]
}

/// The thread that the next task goes to, where there is a thread.
pub open spec fn least_loaded(loads: Seq<int>) -> int {
    choose|n: int| is_least_loaded(loads, n)
}

/// The counters after a task was handed to thread `n`.
pub open spec fn assigned(loads: Seq<int>, n: int) -> Seq<int> {
    loads.update(n, loads[n] + 1)
}

/// The counters after thread `n` finished a task.
pub open spec fn released(loads: Seq<int>, n: int) -> Seq<int> {
    loads.update(n, loads[n] - 1)
}

/// Changing one counter changes the sum by as much.
pub proof fn lemma_total_update(loads: Seq<int>, n: int, v: int)
    requires
        0 <= n < loads.len(),
    ensures
        total(loads.update(n, v)) == total(loads) - loads[n] + v,
    decreases loads.len(),
{
    let changed = loads.update(n, v);
    if n == loads.len() - 1 {
        assert(changed.drop_last() =~= loads.drop_last());
    } else {
        lemma_total_update(loads.drop_last(), n, v);
        assert(changed.drop_last() =~= loads.drop_last().update(n, v));
    }
}

/// Counters that are never negative add up to zero exactly when all of them
/// are zero.
pub proof fn lemma_total_positive_iff_some_nonzero(loads: Seq<int>)
    requires
        all_non_negative(loads),
    ensures
        0 <= total(loads),
        total(loads) > 0 <==> some_nonzero(loads),
    decreases loads.len(),
{
    if loads.len() > 0 {
        let head = loads.drop_last();
        assert(all_non_negative(head)) by {
            assert forall|i: int| 0 <= i < head.len() implies 0 <= #[trigger] head[i] by {
                assert(head[i] == loads[i]);
            }
        }
        lemma_total_positive_iff_some_nonzero(head);
        assert(0 <= loads[loads.len() - 1]);
        if some_nonzero(loads) {
            let i = choose|i: int| 0 <= i < loads.len() && #[trigger] loads[i] != 0;
            if i < head.len() {
                assert(head[i] != 0);
            }
        }
        if total(loads) > 0 {
            if loads.last() == 0 {
                let i = choose|i: int| 0 <= i < head.len() && #[trigger] head[i] != 0;
                assert(loads[i] != 0);
            } else {
                assert(loads[loads.len() - 1] != 0);
            }
        }
    }
}

/// At most one thread is the least loaded.
pub proof fn lemma_least_loaded_is_unique(loads: Seq<int>, a: int, b: int)
    requires
        is_least_loaded(loads, a),
        is_least_loaded(loads, b),
    ensures
        a == b,
{
    if a < b {
        assert(loads[b] < loads[a]);
        assert(loads[a] <= loads[b]);
    } else if b < a {
        assert(loads[a] < loads[b]);
        assert(loads[b] <= loads[a]);
    }
}

/// The counters after `k` tasks in a row were handed out, each to the thread
/// that was the least loaded when its turn came.
pub open spec fn after_pushes(loads: Seq<int>, k: nat) -> Seq<int>
    decreases k,
{
    if k == 0 {
        loads
    } else {
        let before = after_pushes(loads, (k - 1) as nat);
        assigned(before, least_loaded(before))
    }
}

/// Where no counter is negative, none is above the sum of all.
pub proof fn lemma_counter_at_most_total(loads: Seq<int>, n: int)
    requires
        all_non_negative(loads),
        0 <= n < loads.len(),
    ensures
        loads[n] <= total(loads),
    decreases loads.len(),
{
    let head = loads.drop_last();
    assert(all_non_negative(head)) by {
        assert forall|i: int| 0 <= i < head.len() implies 0 <= #[trigger] head[i] by {
            assert(head[i] == loads[i]);
        }
    }
    lemma_total_positive_iff_some_nonzero(head);
    assert(0 <= loads[loads.len() - 1]);
    if n < head.len() {
        lemma_counter_at_most_total(head, n);
        assert(head[n] == loads[n]);
    }
}

/// No thread carries more than one task above any other.
pub open spec fn balanced(loads: Seq<int>) -> bool {
    forall|i: int, j: int|
        0 <= i < loads.len() && 0 <= j < loads.len() ==> #[trigger] loads[i] - #[trigger] loads[j]
            <= 1
}

/// Handing tasks to the least-loaded thread keeps the counters in order and
/// the pool in balance, and every task handed out is one more outstanding.
pub proof fn lemma_pushes_add_up(loads: Seq<int>, k: nat)
    requires
        loads.len() >= 1,
        all_non_negative(loads),
    ensures
        after_pushes(loads, k).len() == loads.len(),
        all_non_negative(after_pushes(loads, k)),
        total(after_pushes(loads, k)) == total(loads) + k,
        balanced(loads) ==> balanced(after_pushes(loads, k)),
    decreases k,
{
    if k > 0 {
        let before = after_pushes(loads, (k - 1) as nat);
        lemma_pushes_add_up(loads, (k - 1) as nat);
        let witness = lemma_least_loaded_exists(before);
        let n = least_loaded(before);
        lemma_total_update(before, n, before[n] + 1);
        let now = after_pushes(loads, k);
        assert(now == assigned(before, n));
        if balanced(loads) {
            assert forall|i: int, j: int| 0 <= i < now.len() && 0 <= j < now.len() implies #[trigger]
                now[i] - #[trigger] now[j] <= 1 by {
                assert(before[i] - before[j] <= 1);
                assert(before[n] <= before[j]);
                assert(before[n] <= before[i]);
            }
        }
    }
}

/// What can happen to a pool: a task is submitted, or thread `0`, `1`, ...
/// delivers a result.
pub enum PoolEvent {
    Push,
    Finish(int),
}

/// The counters of a pool that went through `trace`, starting from `loads`.
/// A task goes to the least-loaded thread; a thread that finishes takes one
/// off its own counter.
pub open spec fn after_trace(loads: Seq<int>, trace: Seq<PoolEvent>) -> Seq<int>
    decreases trace.len(),
{
    if trace.len() == 0 {
        loads
    } else {
        let before = after_trace(loads, trace.drop_last());
        match trace.last() {
            PoolEvent::Push => assigned(before, least_loaded(before)),
            PoolEvent::Finish(n) => released(before, n),
        }
    }
}

/// A trace is possible when a thread finishes only what it was given: every
/// `Finish(n)` names a thread whose counter is above zero at that moment.
pub open spec fn trace_possible(loads: Seq<int>, trace: Seq<PoolEvent>) -> bool
    decreases trace.len(),
{
    if trace.len() == 0 {
        true
    } else {
        let before = after_trace(loads, trace.drop_last());
        &&& trace_possible(loads, trace.drop_last())
        &&& match trace.last() {
            PoolEvent::Push => true,
            PoolEvent::Finish(n) => 0 <= n < before.len() && before[n] > 0,
        }
    }
}

/// Number of submissions in a trace.
pub open spec fn pushes(trace: Seq<PoolEvent>) -> int
    decreases trace.len(),
{
    if trace.len() == 0 {
        0
    } else {
        pushes(trace.drop_last()) + if trace.last() is Push {
            1int
        } else {
            0int
        }
    }
}

/// Number of deliveries in a trace.
pub open spec fn finishes(trace: Seq<PoolEvent>) -> int
    decreases trace.len(),
{
    if trace.len() == 0 {
        0
    } else {
        finishes(trace.drop_last()) + if trace.last() is Finish {
            1int
        } else {
            0int
        }
    }
}

/// An idle pool of `threads` threads.
pub open spec fn idle(threads: nat) -> Seq<int> {
    Seq::new(threads, |i: int| 0int)
}

/// Some thread is the least loaded as soon as there is a thread.
pub proof fn lemma_least_loaded_exists(loads: Seq<int>) -> (n: int)
    requires
        loads.len() >= 1,
    ensures
        is_least_loaded(loads, n),
    decreases loads.len(),
{
    if loads.len() == 1 {
        0
    } else {
        let head = loads.drop_last();
        let m = lemma_least_loaded_exists(head);
        assert(forall|j: int| 0 <= j < head.len() ==> head[j] == loads[j]);
        if loads.last() < loads[m] {
            let n = loads.len() - 1;
            assert forall|j: int| 0 <= j < n implies loads[n] < #[trigger] loads[j] by {
                assert(head[m] <= head[j]);
            }
            n
        } else {
            assert forall|j: int| 0 <= j < loads.len() implies loads[m] <= #[trigger] loads[j] by {
                if j < head.len() {
                    assert(head[m] <= head[j]);
                }
            }
            assert forall|j: int| 0 <= j < m implies loads[m] < #[trigger] loads[j] by {
                assert(head[m] < head[j]);
            }
            m
        }
    }
}

/// A pool that starts idle and goes through any possible trace keeps its
/// counters at or above zero, carries exactly the tasks submitted and not yet
/// delivered, and is busy exactly while fewer results were delivered than
/// tasks were submitted. So `k` submissions are followed by at most `k`
/// deliveries, and the pool falls idle only with the `k`-th of them.
pub proof fn lemma_busy_until_all_delivered(threads: nat, trace: Seq<PoolEvent>)
    requires
        threads >= 1,
        trace_possible(idle(threads), trace),
    ensures
        after_trace(idle(threads), trace).len() == threads,
        all_non_negative(after_trace(idle(threads), trace)),
        total(after_trace(idle(threads), trace)) == pushes(trace) - finishes(trace),
        finishes(trace) <= pushes(trace),
        some_nonzero(after_trace(idle(threads), trace)) <==> finishes(trace) < pushes(trace),
    decreases trace.len(),
{
    let start = idle(threads);
    let now = after_trace(start, trace);
    if trace.len() == 0 {
        lemma_total_idle(threads);
    } else {
        let earlier = trace.drop_last();
        let before = after_trace(start, earlier);
        lemma_busy_until_all_delivered(threads, earlier);
        match trace.last() {
            PoolEvent::Push => {
                let witness = lemma_least_loaded_exists(before);
                let n = least_loaded(before);
                lemma_total_update(before, n, before[n] + 1);
            },
            PoolEvent::Finish(n) => {
                lemma_total_update(before, n, before[n] - 1);
            },
        }
        assert(all_non_negative(now));
    }
    lemma_total_positive_iff_some_nonzero(now);
}

/// An idle pool carries nothing.
pub proof fn lemma_total_idle(threads: nat)
    ensures
        total(idle(threads)) == 0,
        all_non_negative(idle(threads)),
        !some_nonzero(idle(threads)),
    decreases threads,
{
    if threads > 0 {
        lemma_total_idle((threads - 1) as nat);
        assert(idle(threads).drop_last() =~= idle((threads - 1) as nat));
    }
}

/// The ledger: one counter per worker thread.
pub struct Worker {
    occupancy: Vec<i32>,
}

impl View for Worker {
    type V = Seq<int>;

    /// The counters, thread by thread.
    closed spec fn view(&self) -> Seq<int> {
        self.occupancy@.map_values(|c: i32| c as int)
    }
}

impl Worker {
    /// The ledger is in order: no counter is negative.
    pub open spec fn wf(&self) -> bool {
        all_non_negative(self@)
    }

    /// Tasks handed out and not yet finished, over all threads.
    pub open spec fn outstanding(&self) -> int {
        total(self@)
    }

    /// The ledger of an idle pool of `threads` threads.
    pub fn new(threads: usize) -> (ret: Worker)
        ensures
            ret@ == idle(threads as nat),
            ret.wf(),
            ret.outstanding() == 0,
    {
        let mut occupancy: Vec<i32> = Vec::new();
        let mut i: usize = 0;
        while i < threads
            invariant
                i <= threads,
                occupancy@.len() == i,
                forall|k: int| 0 <= k < i ==> occupancy@[k] == 0,
            decreases threads - i,
        {
            occupancy.push(0);
            i = i + 1;
        }
        let ret = Worker { occupancy };
        proof {
            assert(ret@ =~= idle(threads as nat));
            lemma_total_idle(threads as nat);
        }
        ret
    }

    /// Number of threads in the pool.
    pub fn threads(&self) -> (ret: usize)
        ensures
            ret == self@.len(),
    {
        self.occupancy.len()
    }

    /// The counter of thread `n`.
    pub fn occupancy(&self, n: usize) -> (ret: i32)
        requires
            n < self@.len(),
        ensures
            ret == self@[n as int],
    {
        self.occupancy[n]
    }

    /// The thread that the next task goes to: the one that carries least,
    /// and of several such the first.
    pub fn min_occupancy_index(&self) -> (ret: usize)
        requires
            self@.len() >= 1,
        ensures
            is_least_loaded(self@, ret as int),
    {
        let mut min_i: usize = 0;
        let mut min_val: i32 = self.occupancy[0];
        let mut i: usize = 0;
        while i < self.occupancy.len()
            invariant
                0 <= i <= self.occupancy@.len(),
                0 <= min_i < self.occupancy@.len(),
                min_val == self.occupancy@[min_i as int],
                forall|j: int| 0 <= j < i ==> min_val <= #[trigger] self.occupancy@[j],
                forall|j: int| 0 <= j < min_i ==> min_val < #[trigger] self.occupancy@[j],
            decreases self.occupancy@.len() - i,
        {
            let tmp: i32 = self.occupancy[i];
            if tmp < min_val {
                min_i = i;
                min_val = tmp;
            }
            i = i + 1;
        }
        assert(is_least_loaded(self@, min_i as int)) by {
            assert forall|j: int| 0 <= j < self@.len() implies self@[min_i as int]
                <= #[trigger] self@[j] by {
                assert(min_val <= self.occupancy@[j]);
            }
            assert forall|j: int| 0 <= j < min_i implies self@[min_i as int]
                < #[trigger] self@[j] by {
                assert(min_val < self.occupancy@[j]);
            }
        }
        min_i
    }

    /// Whether `tasks` more tasks can be booked without a counter leaving
    /// the machine integers.
    pub fn can_take(&self, tasks: usize) -> (ret: bool)
        requires
            self.wf(),
        ensures
            ret == (self.outstanding() + tasks <= i32::MAX),
    {
        let mut sum: u128 = 0;
        let mut i: usize = 0;
        while i < self.occupancy.len()
            invariant
                self.wf(),
                0 <= i <= self.occupancy@.len(),
                sum == total(self@.take(i as int)),
                sum <= i * 0x7fff_ffff,
            decreases self.occupancy@.len() - i,
        {
            proof {
                assert(self@.take(i as int + 1).drop_last() =~= self@.take(i as int));
                assert(self@.take(i as int + 1).last() == self@[i as int]);
                assert(0 <= self@[i as int]);
            }
            let counter: i32 = self.occupancy[i];
            sum = sum + counter as u128;
            i = i + 1;
        }
        assert(self@.take(self@.len() as int) =~= self@);
        sum + tasks as u128 <= 0x7fff_ffff
    }

    /// Books a new task: picks the least-loaded thread, adds one to its
    /// counter and says which thread it is. The caller puts the task on that
    /// thread's queue.
    pub fn push(&mut self) -> (ret: usize)
        requires
            old(self).wf(),
            old(self)@.len() >= 1,
            forall|n: int| is_least_loaded(old(self)@, n) ==> old(self)@[n] < i32::MAX,
        ensures
            is_least_loaded(old(self)@, ret as int),
            final(self)@ == assigned(old(self)@, ret as int),
            final(self).wf(),
            final(self).outstanding() == old(self).outstanding() + 1,
    {
        let n: usize = self.min_occupancy_index();
        let picked: i32 = self.occupancy[n];
        assert(picked == self@[n as int]);
        self.occupancy.set(n, picked + 1);
        proof {
            assert(self@ =~= assigned(old(self)@, n as int));
            lemma_total_update(old(self)@, n as int, old(self)@[n as int] + 1);
        }
        n
    }

    /// Books the end of a task on thread `n`: takes one off its counter.
    pub fn finish(&mut self, n: usize)
        requires
            old(self).wf(),
            n < old(self)@.len(),
            old(self)@[n as int] > 0,
        ensures
            final(self)@ == released(old(self)@, n as int),
            final(self).wf(),
            final(self).outstanding() == old(self).outstanding() - 1,
    {
        let busy_counter: i32 = self.occupancy[n];
        assert(busy_counter == self@[n as int]);
        self.occupancy.set(n, busy_counter - 1);
        proof {
            assert(self@ =~= released(old(self)@, n as int));
            lemma_total_update(old(self)@, n as int, old(self)@[n as int] - 1);
        }
    }

    /// Whether any thread still has a task to finish.
    pub fn is_occupied(&self) -> (ret: bool)
        ensures
            ret == some_nonzero(self@),
            self.wf() ==> ret == (self.outstanding() > 0),
    {
        let mut i: usize = 0;
        let mut found = false;
        while i < self.occupancy.len() && !found
            invariant
                0 <= i <= self.occupancy@.len(),
                !found ==> forall|j: int| 0 <= j < i ==> self.occupancy@[j] == 0,
                found ==> some_nonzero(self@),
            decreases self.occupancy@.len() - i + if found { 0int } else { 1int },
        {
            if self.occupancy[i] != 0 {
                assert(self@[i as int] != 0);
                found = true;
            } else {
                i = i + 1;
            }
        }
        proof {
            if !found {
                assert forall|j: int| 0 <= j < self@.len() implies #[trigger] self@[j] == 0 by {
                    assert(self.occupancy@[j] == 0);
                }
            }
            if self.wf() {
                lemma_total_positive_iff_some_nonzero(self@);
            }
        }
        found
    }
}

} // verus!
