//! The global runnable-task queue and the step a core's run loop takes on
//! it.
//!
//! A task is an opaque handle to a suspendable computation. Spawning makes
//! the task runnable immediately by appending it to the queue; waking a
//! suspended task performs the identical enqueue action. Every core's loop
//! drains the same queue in first-in, first-out order: `run` hands back the
//! oldest runnable task for the caller to drive to its next suspension
//! point. The queue's capacity is fixed; exceeding it is a deployment
//! error, not a recoverable one.
use vstd::prelude::*;

verus! {

/// Opaque handle of a spawned computation; whoever dequeues it drives the
/// computation it stands for.
pub type TaskId = usize;

/// How many runnable tasks the queue holds at most.
pub const QUEUE_CAPACITY: usize = 16;

/// The process-wide runnable-task queue, drained by every core.
pub struct Executor {
    pub queue: Vec<TaskId>,
}

impl Executor {
    pub open spec fn wf(self) -> bool {
        self.queue@.len() <= QUEUE_CAPACITY
    }

    /// An empty queue.
    pub fn new() -> (e: Executor)
        ensures
            e.wf(),
            e.queue@ == Seq::<TaskId>::empty(),
    {
        Executor { queue: Vec::new() }
    }

    /// Whether another task still fits.
    pub fn has_room(&self) -> (r: bool)
        ensures
            r <==> self.queue@.len() < QUEUE_CAPACITY,
    {
        self.queue.len() < QUEUE_CAPACITY
    }

    /// Makes `task` runnable immediately: appends it behind every task that
    /// became runnable earlier. Exceeding the queue's capacity is a
    /// deployment error, not a recoverable one.
    pub fn spawn(&mut self, task: TaskId)
        requires
            old(self).wf(),
            old(self).queue@.len() < QUEUE_CAPACITY,
        ensures
            final(self).wf(),
            final(self).queue@ == old(self).queue@.push(task),
    {
        self.queue.push(task);
    }

    /// Re-enqueues a task whose waker was invoked: the identical action
    /// [`Executor::spawn`] performs.
    pub fn wake(&mut self, task: TaskId)
        requires
            old(self).wf(),
            old(self).queue@.len() < QUEUE_CAPACITY,
        ensures
            final(self).wf(),
            final(self).queue@ == old(self).queue@.push(task),
    {
        self.spawn(task);
    }
}

/// Makes `task` runnable on the given executor.
pub fn spawn(exec: &mut Executor, task: TaskId)
    requires
        old(exec).wf(),
        old(exec).queue@.len() < QUEUE_CAPACITY,
    ensures
        final(exec).wf(),
        final(exec).queue@ == old(exec).queue@.push(task),
{
    exec.spawn(task);
}

/// One step of a core's run loop: dequeues the oldest runnable task, if
/// any, for the caller to drive to its next suspension point or
/// completion. A task that suspends is not handed out again until its
/// waker re-enqueues it.
pub fn run(exec: &mut Executor) -> (r: Option<TaskId>)
    requires
        old(exec).wf(),
    ensures
        final(exec).wf(),
        old(exec).queue@.len() == 0 ==> r is None && final(exec).queue@ == old(exec).queue@,
        old(exec).queue@.len() > 0 ==> r == Some(old(exec).queue@.first()) && final(exec).queue@
            == old(exec).queue@.drop_first(),
{
    if exec.queue.len() == 0 {
        None
    } else {
        let task = exec.queue.remove(0);
        proof {
            assert(exec.queue@ =~= old(exec).queue@.drop_first());
        }
        Some(task)
    }
}

/// Law: tasks come back out in the order they were made runnable. Spawning
/// `first` and then `second` from any queue state leaves `first` standing
/// ahead of `second`, so one run step hands out `first` (or an even older
/// task) before `second` can ever be handed out.
pub proof fn lemma_fifo_order(q: Seq<TaskId>, first: TaskId, second: TaskId)
    ensures
        q.push(first).push(second).index_of_first(first) is Some,
        q.push(first).push(second).index_of_first(first)->Some_0 <= q.len(),
        q.push(first).push(second)[q.len() as int + 1] == second,
        q.len() == 0 ==> q.push(first).push(second).first() == first,
{
    let s = q.push(first).push(second);
    assert(s[q.len() as int] == first);
    assert(s[q.len() as int + 1] == second);
    s.index_of_first_ensures(first);
    assert(s.contains(first));
    let fi = s.index_of_first(first)->Some_0;
    if fi > q.len() {
        assert(s[q.len() as int] != first);
    }
}

} // verus!
