//! Laws of the wait queues, stated over the manager's map view and the
//! transition functions that the executable operations are specified with.

use vstd::prelude::*;
use crate::manager::{spec_after_dequeue, spec_dequeued, spec_inqueue, spec_register};

verus! {

/// A dequeue against a registered source with an empty queue reports empty,
/// never a task.
pub proof fn lemma_dequeue_empty_queue(m: Map<usize, Seq<usize>>, source: usize)
    requires
        m.dom().contains(source),
        m[source].len() == 0,
    ensures
        spec_dequeued(m, source) is None,
        spec_after_dequeue(m, source) == m,
{
}

/// A dequeue against a source that was never registered reports empty and
/// changes nothing.
pub proof fn lemma_dequeue_unregistered(m: Map<usize, Seq<usize>>, source: usize)
    requires
        !m.dom().contains(source),
    ensures
        spec_dequeued(m, source) is None,
        spec_after_dequeue(m, source) == m,
{
}

/// An enqueue against a source that was never registered leaves every queue
/// as it was: the task is dropped, which is why the executable operation
/// reports the failure to its caller.
pub proof fn lemma_inqueue_unregistered(m: Map<usize, Seq<usize>>, source: usize, task: usize)
    requires
        !m.dom().contains(source),
    ensures
        spec_inqueue(m, source, task) == m,
{
}

/// Dispatch never reaches across sources: waking source `a` leaves the
/// queue of every other source `b` — registered or not — exactly as it was.
pub proof fn lemma_dequeue_frames_others(m: Map<usize, Seq<usize>>, a: usize, b: usize)
    requires
        a != b,
    ensures
        spec_after_dequeue(m, a).dom().contains(b) == m.dom().contains(b),
        m.dom().contains(b) ==> spec_after_dequeue(m, a)[b] == m[b],
{
}

/// An enqueue never reaches across sources either.
pub proof fn lemma_inqueue_frames_others(m: Map<usize, Seq<usize>>, a: usize, task: usize, b: usize)
    requires
        a != b,
    ensures
        spec_inqueue(m, a, task).dom().contains(b) == m.dom().contains(b),
        m.dom().contains(b) ==> spec_inqueue(m, a, task)[b] == m[b],
{
}

/// The map after `n` successive dequeues against `source`.
pub open spec fn spec_drain(m: Map<usize, Seq<usize>>, source: usize, n: nat) -> Map<
    usize,
    Seq<usize>,
>
    decreases n,
{
    if n == 0 {
        m
    } else {
        spec_after_dequeue(spec_drain(m, source, (n - 1) as nat), source)
    }
}

/// Draining `n` tasks of a queue that holds at least `n` removes exactly
/// the first `n`, in order, and touches no other queue.
pub proof fn lemma_drain_skips(m: Map<usize, Seq<usize>>, source: usize, n: nat)
    requires
        m.dom().contains(source),
        n <= m[source].len(),
    ensures
        spec_drain(m, source, n).dom() == m.dom(),
        spec_drain(m, source, n)[source] == m[source].skip(n as int),
        forall|b: usize|
            b != source && m.dom().contains(b) ==> spec_drain(m, source, n)[b] == m[b],
    decreases n,
{
    if n == 0 {
        assert(m[source].skip(0) =~= m[source]);
    } else {
        lemma_drain_skips(m, source, (n - 1) as nat);
        let before = spec_drain(m, source, (n - 1) as nat);
        assert(before[source].drop_first() =~= m[source].skip(n as int));
    }
}

/// FIFO law: if `t1` and then `t2` are enqueued on the same source, in that
/// order, successive dequeues against that source return every task that
/// was already queued first, then `t1`, and only then `t2`.
pub proof fn lemma_fifo(m: Map<usize, Seq<usize>>, source: usize, t1: usize, t2: usize)
    requires
        m.dom().contains(source),
    ensures
        ({
            let m2 = spec_inqueue(spec_inqueue(m, source, t1), source, t2);
            let already = m[source].len();
            &&& spec_dequeued(spec_drain(m2, source, already), source) == Some(t1)
            &&& spec_dequeued(spec_drain(m2, source, already + 1), source) == Some(t2)
        }),
{
    let m2 = spec_inqueue(spec_inqueue(m, source, t1), source, t2);
    let already = m[source].len();
    assert(m2[source] == m[source].push(t1).push(t2));
    lemma_drain_skips(m2, source, already);
    assert(spec_drain(m2, source, already)[source][0] == t1);
    lemma_drain_skips(m2, source, already + 1);
    assert(spec_drain(m2, source, already + 1)[source][0] == t2);
}

/// The task waits in some queue of `m`.
pub open spec fn spec_queued(m: Map<usize, Seq<usize>>, task: usize) -> bool {
    exists|s: usize| #[trigger] m.dom().contains(s) && m[s].contains(task)
}

/// Every queue holds a task at most once, and no task waits in two queues:
/// while a task waits, exactly one queue owns it.
pub open spec fn spec_tasks_distinct(m: Map<usize, Seq<usize>>) -> bool {
    &&& forall|s: usize| #[trigger] m.dom().contains(s) ==> m[s].no_duplicates()
    &&& forall|a: usize, b: usize, t: usize|
        m.dom().contains(a) && m.dom().contains(b) && a != b && #[trigger] m[a].contains(t)
            ==> !(#[trigger] m[b].contains(t))
}

proof fn lemma_push_contains(q: Seq<usize>, x: usize, t: usize)
    ensures
        q.push(x).contains(t) <==> (q.contains(t) || t == x),
{
    if q.push(x).contains(t) {
        let i = choose|i: int| 0 <= i < q.push(x).len() && q.push(x)[i] == t;
        if i < q.len() {
            assert(q[i] == t);
        }
    }
    if q.contains(t) {
        let i = choose|i: int| 0 <= i < q.len() && q[i] == t;
        assert(q.push(x)[i] == t);
    }
    if t == x {
        assert(q.push(x)[q.len() as int] == t);
    }
}

proof fn lemma_drop_first_contains(q: Seq<usize>, t: usize)
    requires
        q.len() > 0,
    ensures
        q.drop_first().contains(t) ==> q.contains(t),
{
    if q.drop_first().contains(t) {
        let i = choose|i: int| 0 <= i < q.drop_first().len() && q.drop_first()[i] == t;
        assert(q[i + 1] == t);
    }
}

/// Registration keeps single ownership: the queue it may add is empty.
pub proof fn lemma_register_keeps_tasks_distinct(m: Map<usize, Seq<usize>>, source: usize)
    requires
        spec_tasks_distinct(m),
    ensures
        spec_tasks_distinct(spec_register(m, source)),
{
    let m1 = spec_register(m, source);
    assert forall|s: usize| #[trigger] m1.dom().contains(s) implies m1[s].no_duplicates() by {
        if s != source || m.dom().contains(source) {
            assert(m1[s] == m[s]);
        }
    }
    assert forall|a: usize, b: usize, t: usize|
        m1.dom().contains(a) && m1.dom().contains(b) && a != b && #[trigger] m1[a].contains(
            t,
        ) implies !(#[trigger] m1[b].contains(t)) by {
        if m.dom().contains(source) {
            assert(m1 == m);
        } else {
            if a != source && b != source {
                assert(m1[a] == m[a] && m1[b] == m[b]);
            } else if a == source {
                assert(m1[a].len() == 0);
            } else {
                assert(m1[b].len() == 0);
            }
        }
    }
}

/// Enqueueing a task that waits nowhere keeps single ownership: afterwards
/// only the requested queue holds it, once.
pub proof fn lemma_inqueue_keeps_tasks_distinct(m: Map<usize, Seq<usize>>, source: usize, task: usize)
    requires
        spec_tasks_distinct(m),
        !spec_queued(m, task),
    ensures
        spec_tasks_distinct(spec_inqueue(m, source, task)),
{
    if m.dom().contains(source) {
        let m1 = spec_inqueue(m, source, task);
        let q = m[source];
        assert(!q.contains(task)) by {
            if q.contains(task) {
                assert(m.dom().contains(source) && m[source].contains(task));
            }
        }
        assert forall|s: usize| #[trigger] m1.dom().contains(s) implies m1[s].no_duplicates() by {
            if s == source {
                let q1 = q.push(task);
                assert forall|i: int, j: int|
                    0 <= i < q1.len() && 0 <= j < q1.len() && i != j implies q1[i] != q1[j] by {
                    if i < q.len() && j < q.len() {
                        assert(q.no_duplicates());
                    } else if i == q.len() {
                        if q[j] == task {
                            assert(q.contains(task));
                        }
                    } else {
                        if q[i] == task {
                            assert(q.contains(task));
                        }
                    }
                }
            } else {
                assert(m1[s] == m[s]);
            }
        }
        assert forall|a: usize, b: usize, t: usize|
            m1.dom().contains(a) && m1.dom().contains(b) && a != b && #[trigger] m1[a].contains(
                t,
            ) implies !(#[trigger] m1[b].contains(t)) by {
            lemma_push_contains(q, task, t);
            if a == source {
                if t == task {
                    if m[b].contains(task) {
                        assert(m.dom().contains(b) && m[b].contains(task));
                        assert(spec_queued(m, task));
                    }
                } else {
                    assert(m[a].contains(t));
                }
            } else if b == source {
                assert(m[a].contains(t));
                if t == task {
                    assert(m.dom().contains(a) && m[a].contains(task));
                    assert(spec_queued(m, task));
                }
            } else {
                assert(m[a].contains(t));
            }
        }
    }
}

/// A dequeue keeps single ownership: removing a queue's head introduces
/// nothing anywhere.
pub proof fn lemma_dequeue_keeps_tasks_distinct(m: Map<usize, Seq<usize>>, source: usize)
    requires
        spec_tasks_distinct(m),
    ensures
        spec_tasks_distinct(spec_after_dequeue(m, source)),
{
    if m.dom().contains(source) && m[source].len() > 0 {
        let m1 = spec_after_dequeue(m, source);
        let q = m[source];
        assert forall|s: usize| #[trigger] m1.dom().contains(s) implies m1[s].no_duplicates() by {
            if s == source {
                let q1 = q.drop_first();
                assert forall|i: int, j: int|
                    0 <= i < q1.len() && 0 <= j < q1.len() && i != j implies q1[i] != q1[j] by {
                    assert(q1[i] == q[i + 1] && q1[j] == q[j + 1]);
                    assert(q.no_duplicates());
                }
            } else {
                assert(m1[s] == m[s]);
            }
        }
        assert forall|a: usize, b: usize, t: usize|
            m1.dom().contains(a) && m1.dom().contains(b) && a != b && #[trigger] m1[a].contains(
                t,
            ) implies !(#[trigger] m1[b].contains(t)) by {
            lemma_drop_first_contains(q, t);
            assert(m[a].contains(t));
            if m1[b].contains(t) {
                assert(m[b].contains(t));
            }
        }
    }
}

/// Ownership of a woken task transfers whole: the instant the head of a
/// queue is dequeued and handed to the scheduler, no wait queue holds it
/// any more.
pub proof fn lemma_dequeued_task_leaves(m: Map<usize, Seq<usize>>, source: usize, task: usize)
    requires
        spec_tasks_distinct(m),
        spec_dequeued(m, source) == Some(task),
    ensures
        !spec_queued(spec_after_dequeue(m, source), task),
{
    let m1 = spec_after_dequeue(m, source);
    let q = m[source];
    assert(q[0] == task);
    assert(q.contains(task));
    assert(!q.drop_first().contains(task)) by {
        if q.drop_first().contains(task) {
            let i = choose|i: int| 0 <= i < q.drop_first().len() && q.drop_first()[i] == task;
            assert(q[i + 1] == task);
            assert(q.no_duplicates());
        }
    }
    if spec_queued(m1, task) {
        let s = choose|s: usize| #[trigger] m1.dom().contains(s) && m1[s].contains(task);
        if s != source {
            assert(m[s].contains(task));
            assert(!(m[s].contains(task)));
        }
    }
}

} // verus!
