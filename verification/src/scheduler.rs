//! Priority scheduling of heavy background work (OCR, embeddings, ...):
//! three first-in first-out queues, drained highest priority first.
use vstd::prelude::*;
use std::collections::VecDeque;
use vstd::multiset::Multiset;

verus! {

/// How urgently a heavy task should run.
#[derive(Debug, Clone, Copy, PartialEq, Eq, Hash, Structural)]
pub enum TaskPriority {
    /// Interactive work the user is waiting for.
    High,
    /// Ordinary work.
    Normal,
    /// Background work.
    Low,
}

/// The contents of the queues: pending tasks of each priority, oldest first.
pub struct QueueState<T> {
    pub high: Seq<T>,
    pub normal: Seq<T>,
    pub low: Seq<T>,
}

/// The queues after `n` tasks are handed out one after the other.
pub open spec fn next_n<T>(s: QueueState<T>, n: nat) -> QueueState<T>
    decreases n,
{
    if n == 0 {
        s
    } else {
        spec_next(next_n(s, (n - 1) as nat)).1
    }
}

/// The order in which the pending tasks will be handed out.
pub open spec fn pending_order<T>(s: QueueState<T>) -> Seq<T> {
    s.high + s.normal + s.low
}

/// The queue state after a task is enqueued with the given priority.
pub open spec fn spec_enqueue<T>(s: QueueState<T>, task: T, p: TaskPriority) -> QueueState<T> {
    match p {
        TaskPriority::High => QueueState { high: s.high.push(task), ..s },
        TaskPriority::Normal => QueueState { normal: s.normal.push(task), ..s },
        TaskPriority::Low => QueueState { low: s.low.push(task), ..s },
    }
}

/// The task handed out next and the queue state after it leaves:
/// the oldest high-priority task, else the oldest normal one, else the oldest low one.
pub open spec fn spec_next<T>(s: QueueState<T>) -> (Option<T>, QueueState<T>) {
    if s.high.len() > 0 {
        (Some(s.high[0]), QueueState { high: s.high.drop_first(), ..s })
    } else if s.normal.len() > 0 {
        (Some(s.normal[0]), QueueState { normal: s.normal.drop_first(), ..s })
    } else if s.low.len() > 0 {
        (Some(s.low[0]), QueueState { low: s.low.drop_first(), ..s })
    } else {
        (None, s)
    }
}

/// The number of pending tasks that are served before a new task of priority `p`.
pub open spec fn served_before<T>(s: QueueState<T>, p: TaskPriority) -> int {
    match p {
        TaskPriority::High => s.high.len() as int,
        TaskPriority::Normal => (s.high.len() + s.normal.len()) as int,
        TaskPriority::Low => (s.high.len() + s.normal.len() + s.low.len()) as int,
    }
}

/// Pending heavy tasks, one first-in first-out queue per priority.
pub struct TaskQueues<T> {
    high: VecDeque<T>,
    normal: VecDeque<T>,
    low: VecDeque<T>,
}

impl<T> View for TaskQueues<T> {
    type V = QueueState<T>;

    closed spec fn view(&self) -> QueueState<T> {
        QueueState { high: self.high@, normal: self.normal@, low: self.low@ }
    }
}

impl<T> TaskQueues<T> {
    /// Empty queues.
    pub fn new() -> (q: Self)
        ensures
            pending_order(q@) == Seq::<T>::empty(),
            q@.high.len() == 0 && q@.normal.len() == 0 && q@.low.len() == 0,
    {
        let q = TaskQueues { high: VecDeque::new(), normal: VecDeque::new(), low: VecDeque::new() };
        assert(pending_order(q@) =~= Seq::<T>::empty());
        q
    }

    /// Number of pending tasks.
    pub fn len(&self) -> (n: usize)
        requires
            self@.high.len() + self@.normal.len() + self@.low.len() <= usize::MAX,
        ensures
            n == pending_order(self@).len(),
    {
        self.high.len() + self.normal.len() + self.low.len()
    }

    /// Adds a task at the back of the queue of its priority.
    pub fn enqueue(&mut self, task: T, priority: TaskPriority)
        ensures
            final(self)@ == spec_enqueue(old(self)@, task, priority),
    {
        match priority {
            TaskPriority::High => self.high.push_back(task),
            TaskPriority::Normal => self.normal.push_back(task),
            TaskPriority::Low => self.low.push_back(task),
        }
    }

    /// Takes the next task to run: the oldest of the highest priority that has one.
    pub fn next_task(&mut self) -> (t: Option<T>)
        ensures
            (t, final(self)@) == spec_next(old(self)@),
    {
        if self.high.len() > 0 {
            self.high.pop_front()
        } else if self.normal.len() > 0 {
            self.normal.pop_front()
        } else {
            self.low.pop_front()
        }
    }

    /// Takes the tasks to start when `free` workers are idle: the first
    /// `free` pending tasks in serving order (all of them when fewer are
    /// pending).  No more than `free` tasks are handed out.
    pub fn take_ready(&mut self, free: usize) -> (ready: Vec<T>)
        ensures
            ready@.len() <= free,
            ready@ == pending_order(old(self)@).take(ready@.len() as int),
            ready@.len() == if pending_order(old(self)@).len() < free {
                pending_order(old(self)@).len()
            } else {
                free as nat
            },
            pending_order(final(self)@) == pending_order(old(self)@).skip(ready@.len() as int),
            final(self)@ == next_n(old(self)@, ready@.len()),
    {
        let ghost start = self@;
        let ghost all = pending_order(self@);
        let mut ready: Vec<T> = Vec::new();
        while ready.len() < free
            invariant_except_break
                ready@.len() <= free,
                ready@ + pending_order(self@) == all,
                self@ == next_n(start, ready@.len()),
            ensures
                ready@.len() <= free,
                ready@ + pending_order(self@) == all,
                self@ == next_n(start, ready@.len()),
                ready@.len() == free || pending_order(self@).len() == 0,
            decreases free - ready@.len(),
        {
            let ghost before = self@;
            proof {
                law_next_is_first_pending(before);
            }
            match self.next_task() {
                Some(t) => {
                    let ghost r0 = ready@;
                    ready.push(t);
                    assert(ready@ + pending_order(self@) =~= r0 + pending_order(before)) by {
                        assert(pending_order(before) =~= seq![t] + pending_order(before).drop_first());
                    }
                },
                None => {
                    break;
                },
            }
        }
        assert(all.take(ready@.len() as int) =~= ready@);
        assert(all.skip(ready@.len() as int) =~= pending_order(self@));
        ready
    }
}

/// Handing out a task takes the first pending task in order and leaves the rest
/// in the same order; with nothing pending nothing is handed out.
pub proof fn law_next_is_first_pending<T>(s: QueueState<T>)
    ensures
        pending_order(s).len() == 0 ==> spec_next(s).0 is None && spec_next(s).1 == s,
        pending_order(s).len() > 0 ==> spec_next(s).0 == Some(pending_order(s)[0])
            && pending_order(spec_next(s).1) == pending_order(s).drop_first(),
{
    if s.high.len() > 0 {
        assert(pending_order(spec_next(s).1) =~= pending_order(s).drop_first());
    } else if s.normal.len() > 0 {
        assert(pending_order(spec_next(s).1) =~= pending_order(s).drop_first());
    } else if s.low.len() > 0 {
        assert(pending_order(spec_next(s).1) =~= pending_order(s).drop_first());
    }
}

/// A new task is served after every pending task of the same or a higher
/// priority and before every pending task of a lower priority; the other
/// tasks keep their order.
pub proof fn law_enqueue_position<T>(s: QueueState<T>, task: T, p: TaskPriority)
    ensures
        pending_order(spec_enqueue(s, task, p)) == pending_order(s).insert(served_before(s, p), task),
        0 <= served_before(s, p) <= pending_order(s).len(),
{
    assert(pending_order(spec_enqueue(s, task, p)) =~= pending_order(s).insert(served_before(s, p), task));
}

/// Tasks of one priority leave in the order they arrived: two tasks enqueued one
/// after the other with the same priority are served in that order, next to each other.
pub proof fn law_fifo_within_priority<T>(s: QueueState<T>, a: T, b: T, p: TaskPriority)
    ensures
        pending_order(spec_enqueue(spec_enqueue(s, a, p), b, p)) == pending_order(s).insert(
            served_before(s, p),
            a,
        ).insert(served_before(s, p) + 1, b),
{
    law_enqueue_position(s, a, p);
    law_enqueue_position(spec_enqueue(s, a, p), b, p);
    assert(served_before(spec_enqueue(s, a, p), p) == served_before(s, p) + 1);
}

/// A high-priority task that arrives while lower-priority work is pending is
/// handed out before all of it: when no other high-priority task is pending, it is next.
pub proof fn law_high_priority_preempts<T>(s: QueueState<T>, task: T)
    requires
        s.high.len() == 0,
    ensures
        spec_next(spec_enqueue(s, task, TaskPriority::High)).0 == Some(task),
        spec_next(spec_enqueue(s, task, TaskPriority::High)).1 == s,
{
    assert(s.high.push(task).drop_first() =~= s.high);
}

/// No task is lost or duplicated: enqueuing adds exactly the new task to the
/// pending tasks, and handing one out removes exactly that one.
pub proof fn law_tasks_conserved<T>(s: QueueState<T>, task: T, p: TaskPriority)
    ensures
        pending_order(spec_enqueue(s, task, p)).to_multiset() == pending_order(s).to_multiset().insert(
            task,
        ),
        spec_next(s).0 matches Some(t) ==> pending_order(s).to_multiset() == pending_order(
            spec_next(s).1,
        ).to_multiset().insert(t),
{
    law_enqueue_position(s, task, p);
    let po = pending_order(s);
    let k = served_before(s, p);
    assert(po.insert(k, task) =~= po.subrange(0, k) + seq![task] + po.subrange(k, po.len() as int));
    assert(po =~= po.subrange(0, k) + po.subrange(k, po.len() as int));
    vstd::seq_lib::lemma_multiset_commutative(po.subrange(0, k) + seq![task], po.subrange(k, po.len() as int));
    vstd::seq_lib::lemma_multiset_commutative(po.subrange(0, k), seq![task]);
    vstd::seq_lib::lemma_multiset_commutative(po.subrange(0, k), po.subrange(k, po.len() as int));
    vstd::seq_lib::lemma_multiset_commutative(seq![task], po.subrange(k, po.len() as int));
    assert(seq![task].to_multiset() =~= Multiset::empty().insert(task)) by {
        broadcast use vstd::seq_lib::group_to_multiset_ensures;
        assert(seq![task] =~= Seq::<T>::empty().push(task));
    }
    law_next_is_first_pending(s);
    if po.len() > 0 {
        assert(po =~= seq![po[0]] + po.drop_first());
        vstd::seq_lib::lemma_multiset_commutative(seq![po[0]], po.drop_first());
        assert(seq![po[0]].to_multiset() =~= Multiset::empty().insert(po[0])) by {
            broadcast use vstd::seq_lib::group_to_multiset_ensures;
            assert(seq![po[0]] =~= Seq::<T>::empty().push(po[0]));
        }
    }
}


/// The smaller of two numbers.
pub open spec fn min_nat(a: int, b: int) -> int {
    if a < b {
        a
    } else {
        b
    }
}

/// Handing out `n` tasks takes them from the front of the high queue first,
/// then from the normal queue, then from the low queue, and leaves the rest of
/// each queue where it was: the queues keep their priorities.
pub proof fn law_handing_out_keeps_queues<T>(s: QueueState<T>, n: nat)
    ensures
        ({
            let nh = min_nat(n as int, s.high.len() as int);
            let nn = min_nat(n - nh, s.normal.len() as int);
            let nl = min_nat(n - nh - nn, s.low.len() as int);
            &&& next_n(s, n).high == s.high.skip(nh)
            &&& next_n(s, n).normal == s.normal.skip(nn)
            &&& next_n(s, n).low == s.low.skip(nl)
        }),
    decreases n,
{
    if n > 0 {
        law_handing_out_keeps_queues(s, (n - 1) as nat);
        let p = next_n(s, (n - 1) as nat);
        let m = n - 1;
        let ph = min_nat(m, s.high.len() as int);
        let pn = min_nat(m - ph, s.normal.len() as int);
        let pl = min_nat(m - ph - pn, s.low.len() as int);
        assert(p.high =~= s.high.skip(ph));
        assert(p.normal =~= s.normal.skip(pn));
        assert(p.low =~= s.low.skip(pl));
        let q = spec_next(p).1;
        if p.high.len() > 0 {
            assert(q.high =~= s.high.skip(ph + 1));
        } else if p.normal.len() > 0 {
            assert(q.normal =~= s.normal.skip(pn + 1));
        } else if p.low.len() > 0 {
            assert(q.low =~= s.low.skip(pl + 1));
        }
    }
}
} // verus!
