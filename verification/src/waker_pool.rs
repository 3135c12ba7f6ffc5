//! Multiplexes a bounded set of thread slots onto the cooperative
//! substrate: an injected scheduling policy decides the order, the timer
//! drives sleeps, and each slot's shared state is what a future and its
//! completer both hold.
//!
//! Shared state lives in arenas indexed by stable identifiers: a future
//! holds the identifier of its state, the wheel holds the identifier of the
//! sleep state it will complete, and handing a future out copies the
//! identifier — a reference count, not a duplicate of the state. Identity
//! of two handles is equality of their identifiers.
use vstd::prelude::*;

use crate::executor::{Executor, TaskId, QUEUE_CAPACITY};
use crate::sbi::HardwareTimer;
use crate::scheduler::Scheduler;
use crate::timer::{lemma_filter_count, retime_post, Tick, Timer, TimerEntry, MAX_TO};
use crate::PollResult;

verus! {

/// Index of a thread slot: the pool's threads are numbered 0 up to the
/// fixed maximum chosen at construction.
pub type Tid = usize;

/// Index of a shared state in its arena: the identity of one sleep or one
/// thread, shared between its future and whoever completes it.
pub type StateId = usize;

/// What a sleeper and its completer share: whether the sleep has elapsed,
/// and the task to re-enqueue when it does.
#[derive(Clone, Copy, PartialEq, Eq, Structural, Debug)]
pub struct SleepSharedState {
    pub completed: bool,
    pub waker: Option<TaskId>,
}

/// A future that resolves once the timer marks its shared state completed.
#[derive(Clone, Copy, PartialEq, Eq, Structural, Debug)]
pub struct SleepFuture {
    pub state: StateId,
}

impl SleepFuture {
    /// Fresh shared state, not yet completed, with nobody waiting on it.
    pub fn new(states: &mut Vec<SleepSharedState>) -> (fut: SleepFuture)
        ensures
            fut.state == old(states)@.len(),
            final(states)@ == old(states)@.push(
                SleepSharedState { completed: false, waker: None },
            ),
    {
        let sid = states.len();
        states.push(SleepSharedState { completed: false, waker: None });
        SleepFuture { state: sid }
    }

    /// One poll: ready exactly when the shared state was completed;
    /// otherwise the polling task registers itself as the waker and
    /// suspends.
    pub fn poll(&self, states: &mut Vec<SleepSharedState>, task: TaskId) -> (r: PollResult)
        requires
            self.state < old(states)@.len(),
        ensures
            r == PollResult::Ready <==> old(states)@[self.state as int].completed,
            r == PollResult::Ready ==> final(states)@ == old(states)@,
            r == PollResult::Pending ==> final(states)@ == old(states)@.update(
                self.state as int,
                SleepSharedState { completed: false, waker: Some(task) },
            ),
    {
        if states[self.state].completed {
            PollResult::Ready
        } else {
            let st = &mut states[self.state];
            st.waker = Some(task);
            PollResult::Pending
        }
    }
}

/// An opaque execution-context capability: the pool owns it from `add`
/// until the thread's future completes, and never inspects it.
pub trait ThreadContext {

}

/// What a thread's future and its completer share: completion, the task to
/// re-enqueue on wake, and the owned context capability.
pub struct ThreadSharedState<C> {
    pub completed: bool,
    pub waker: Option<TaskId>,
    pub context: Option<C>,
}

/// A future driving one multiplexed thread; holding one is holding a
/// reference to the slot's shared state, not a copy of it.
#[derive(Clone, Copy, PartialEq, Eq, Structural, Debug)]
pub struct ThreadFuture {
    pub state: StateId,
}

impl ThreadFuture {
    /// Fresh shared state owning `context`, not yet completed.
    pub fn new<C>(states: &mut Vec<ThreadSharedState<C>>, context: C) -> (fut: ThreadFuture)
        ensures
            fut.state == old(states)@.len(),
            final(states)@.len() == old(states)@.len() + 1,
            forall|i: int|
                0 <= i < old(states)@.len() ==> final(states)@[i] == old(states)@[i],
            final(states)@.last().completed == false,
            final(states)@.last().waker is None,
            final(states)@.last().context == Some(context),
    {
        let sid = states.len();
        states.push(ThreadSharedState { completed: false, waker: None, context: Some(context) });
        ThreadFuture { state: sid }
    }

    /// One poll: ready exactly when the shared state was completed;
    /// otherwise the polling task registers itself as the waker and
    /// suspends.
    pub fn poll<C>(&self, states: &mut Vec<ThreadSharedState<C>>, task: TaskId) -> (r: PollResult)
        requires
            self.state < old(states)@.len(),
        ensures
            r == PollResult::Ready <==> old(states)@[self.state as int].completed,
            r == PollResult::Ready ==> final(states)@ == old(states)@,
            r == PollResult::Pending ==> ({
                &&& final(states)@.len() == old(states)@.len()
                &&& forall|i: int|
                    0 <= i < old(states)@.len() && i != self.state ==> final(states)@[i] == old(
                        states,
                    )@[i]
                &&& final(states)@[self.state as int].completed == old(states)@[self.state as int].completed
                &&& final(states)@[self.state as int].waker == Some(task)
                &&& final(states)@[self.state as int].context == old(states)@[self.state as int].context
            }),
    {
        if states[self.state].completed {
            PollResult::Ready
        } else {
            let st = &mut states[self.state];
            st.waker = Some(task);
            PollResult::Pending
        }
    }
}

/// The sleep arena after the timer has handed back `fired`, in order: each
/// fired entry's state is marked completed and its stored waker is taken.
pub open spec fn states_after_drain(
    states: Seq<SleepSharedState>,
    fired: Seq<TimerEntry>,
) -> Seq<SleepSharedState>
    decreases fired.len(),
{
    if fired.len() == 0 {
        states
    } else {
        let e = fired.first();
        let next = if e.waker < states.len() {
            states.update(e.waker as int, SleepSharedState { completed: true, waker: None })
        } else {
            states
        };
        states_after_drain(next, fired.drop_first())
    }
}

/// The tasks re-enqueued while draining `fired`, in firing order: for each
/// fired entry whose state held a registered waker, that waker's task.
pub open spec fn tasks_woken_by_drain(
    states: Seq<SleepSharedState>,
    fired: Seq<TimerEntry>,
) -> Seq<TaskId>
    decreases fired.len(),
{
    if fired.len() == 0 {
        Seq::<TaskId>::empty()
    } else {
        let e = fired.first();
        if e.waker < states.len() {
            let woken: Seq<TaskId> = match states[e.waker as int].waker {
                Some(t) => seq![t],
                None => Seq::<TaskId>::empty(),
            };
            let next = states.update(
                e.waker as int,
                SleepSharedState { completed: true, waker: None },
            );
            woken + tasks_woken_by_drain(next, fired.drop_first())
        } else {
            tasks_woken_by_drain(states, fired.drop_first())
        }
    }
}

/// Draining neither grows nor shrinks the arena.
pub proof fn lemma_drain_preserves_len(states: Seq<SleepSharedState>, fired: Seq<TimerEntry>)
    ensures
        states_after_drain(states, fired).len() == states.len(),
    decreases fired.len(),
{
    if fired.len() > 0 {
        let e = fired.first();
        let next = if e.waker < states.len() {
            states.update(e.waker as int, SleepSharedState { completed: true, waker: None })
        } else {
            states
        };
        lemma_drain_preserves_len(next, fired.drop_first());
    }
}

/// What draining does to one state: a state some fired entry refers to
/// ends completed with its waker taken; every other state is untouched.
pub proof fn lemma_drain_effect(states: Seq<SleepSharedState>, fired: Seq<TimerEntry>, sid: int)
    requires
        0 <= sid < states.len(),
    ensures
        (exists|k: int| 0 <= k < fired.len() && (#[trigger] fired[k]).waker == sid)
            ==> states_after_drain(states, fired)[sid] == (SleepSharedState {
            completed: true,
            waker: None,
        }),
        !(exists|k: int| 0 <= k < fired.len() && (#[trigger] fired[k]).waker == sid)
            ==> states_after_drain(states, fired)[sid] == states[sid],
    decreases fired.len(),
{
    if fired.len() > 0 {
        let e = fired.first();
        let rest = fired.drop_first();
        let next = if e.waker < states.len() {
            states.update(e.waker as int, SleepSharedState { completed: true, waker: None })
        } else {
            states
        };
        lemma_drain_effect(next, rest, sid);
        assert(forall|k: int| 0 <= k < rest.len() ==> #[trigger] rest[k] == fired[k + 1]);
        if e.waker == sid {
            assert(fired[0].waker == sid);
            assert(next[sid] == (SleepSharedState { completed: true, waker: None }));
            if exists|k: int| 0 <= k < rest.len() && (#[trigger] rest[k]).waker == sid {
            } else {
                assert(states_after_drain(next, rest)[sid] == next[sid]);
            }
        } else {
            assert(next[sid] == states[sid]);
            if exists|k: int| 0 <= k < fired.len() && (#[trigger] fired[k]).waker == sid {
                let k = choose|k: int| 0 <= k < fired.len() && (#[trigger] fired[k]).waker == sid;
                assert(k != 0);
                assert(rest[k - 1].waker == sid);
            } else {
                assert forall|k: int| 0 <= k < rest.len() implies (#[trigger] rest[k]).waker != sid by {
                    assert(fired[k + 1] == rest[k]);
                };
            }
        }
    }
}

/// Law: a drain at time `now` completes every sleep whose wheel entry was
/// due, and takes its registered waker, exactly once.
pub proof fn lemma_due_sleep_completed(
    states: Seq<SleepSharedState>,
    entries: Seq<TimerEntry>,
    now: Tick,
    j: int,
)
    requires
        0 <= j < entries.len(),
        entries[j].deadline <= now,
        entries[j].waker < states.len(),
    ensures
        states_after_drain(states, entries.filter(|e: TimerEntry| e.deadline <= now)).len()
            == states.len(),
        states_after_drain(states, entries.filter(|e: TimerEntry| e.deadline <= now))[entries[j].waker as int]
            == (SleepSharedState { completed: true, waker: None }),
{
    broadcast use vstd::seq_lib::group_to_multiset_ensures;

    let pred = |e: TimerEntry| e.deadline <= now;
    let fired = entries.filter(pred);
    lemma_drain_preserves_len(states, fired);
    let e = entries[j];
    assert(entries.contains(e));
    lemma_filter_count(entries, pred, e);
    assert(entries.to_multiset().count(e) > 0);
    assert(fired.to_multiset().count(e) > 0);
    assert(fired.contains(e));
    let k = choose|k: int| 0 <= k < fired.len() && fired[k] == e;
    assert(fired[k].waker == e.waker as int);
    lemma_drain_effect(states, fired, e.waker as int);
}

/// Law: a drain at time `now` leaves a sleep alone when its one wheel
/// entry is not yet due: it stays exactly as it was.
pub proof fn lemma_pending_sleep_untouched(
    states: Seq<SleepSharedState>,
    entries: Seq<TimerEntry>,
    now: Tick,
    j: int,
)
    requires
        0 <= j < entries.len(),
        entries[j].deadline > now,
        entries[j].waker < states.len(),
        forall|k: int|
            0 <= k < entries.len() && k != j ==> (#[trigger] entries[k]).waker != entries[j].waker,
    ensures
        states_after_drain(states, entries.filter(|e: TimerEntry| e.deadline <= now)).len()
            == states.len(),
        states_after_drain(states, entries.filter(|e: TimerEntry| e.deadline <= now))[entries[j].waker as int]
            == states[entries[j].waker as int],
{
    broadcast use vstd::seq_lib::group_to_multiset_ensures;

    let pred = |e: TimerEntry| e.deadline <= now;
    let fired = entries.filter(pred);
    lemma_drain_preserves_len(states, fired);
    let sid = entries[j].waker as int;
    assert forall|k: int| 0 <= k < fired.len() implies (#[trigger] fired[k]).waker != sid by {
        let f = fired[k];
        assert(fired.contains(f));
        entries.lemma_filter_pred(pred, k);
        lemma_filter_count(entries, pred, f);
        assert(entries.to_multiset().count(f) > 0);
        assert(entries.contains(f));
        let m = choose|m: int| 0 <= m < entries.len() && entries[m] == f;
        if m == j {
            assert(f.deadline > now);
        } else {
            assert(entries[m].waker != entries[j].waker);
        }
    };
    lemma_drain_effect(states, fired, sid);
}

/// Up to `max_proc_num` thread slots multiplexed over the timer and an
/// injected policy. A slot is an index into `threads`; a live slot refers
/// to the shared state of the thread occupying it.
pub struct WakerPool<C, S> {
    pub threads: Vec<Option<StateId>>,
    pub thread_states: Vec<ThreadSharedState<C>>,
    pub sleep_states: Vec<SleepSharedState>,
    pub scheduler: S,
    pub timer: Timer,
}

impl<C, S: Scheduler> WakerPool<C, S> {
    /// Every identifier the policy may yield names a live slot; every live
    /// slot and every wheel entry refers into its arena.
    pub open spec fn wf(self) -> bool {
        &&& self.timer.wf()
        &&& forall|t: usize|
            #[trigger] self.scheduler.tids().contains(t) ==> t < self.threads@.len()
                && self.threads@[t as int] is Some
        &&& forall|i: int|
            0 <= i < self.threads@.len() && self.threads@[i] is Some
                ==> (#[trigger] self.threads@[i])->Some_0 < self.thread_states@.len()
        &&& forall|i: int|
            0 <= i < self.timer.wheel.entries@.len() ==> (#[trigger] self.timer.wheel.entries@[i]).waker
                < self.sleep_states@.len()
    }

    /// A pool of `max_proc_num` free slots over a fresh policy and a fresh
    /// timer whose wheel holds `wheel_capacity` entries and starts at the
    /// current clock reading.
    pub fn new(scheduler: S, max_proc_num: usize, wheel_capacity: usize, now: Tick) -> (pool:
        WakerPool<C, S>)
        requires
            scheduler.tids() == Set::<usize>::empty(),
        ensures
            pool.wf(),
            pool.threads@.len() == max_proc_num,
            forall|i: int| 0 <= i < max_proc_num ==> pool.threads@[i] is None,
            pool.thread_states@ == Seq::<ThreadSharedState<C>>::empty(),
            pool.sleep_states@ == Seq::<SleepSharedState>::empty(),
            pool.scheduler == scheduler,
            pool.timer.wheel.entries@ == Seq::<TimerEntry>::empty(),
            pool.timer.wheel.elapsed == now,
            pool.timer.wheel.capacity == wheel_capacity,
    {
        let mut threads: Vec<Option<StateId>> = Vec::new();
        let mut i: usize = 0;
        while i < max_proc_num
            invariant
                i <= max_proc_num,
                threads@.len() == i,
                forall|j: int| 0 <= j < i ==> threads@[j] is None,
            decreases max_proc_num - i,
        {
            threads.push(None);
            i = i + 1;
        }
        WakerPool {
            threads,
            thread_states: Vec::new(),
            sleep_states: Vec::new(),
            scheduler,
            timer: Timer::new(wheel_capacity, now),
        }
    }

    /// Whether slot `i` can take a new occupant: it never held one, or its
    /// prior occupant's shared state reports completion — a completed
    /// thread's slot is reclaimed by the next allocation scan, never
    /// earlier.
    pub open spec fn slot_free(self, i: int) -> bool {
        ||| self.threads@[i] is None
        ||| self.thread_states@[self.threads@[i]->Some_0 as int].completed
    }

    /// Whether a slot is still free for [`WakerPool::add`]: when none is,
    /// one more addition is a fatal misconfiguration.
    pub fn has_free_slot(&self) -> (r: bool)
        requires
            self.wf(),
        ensures
            r <==> exists|i: int| 0 <= i < self.threads@.len() && self.slot_free(i),
    {
        let n = self.threads.len();
        let mut i: usize = 0;
        while i < n
            invariant
                self.wf(),
                i <= n,
                n == self.threads@.len(),
                forall|j: int| 0 <= j < i ==> !self.slot_free(j),
            decreases n - i,
        {
            let free = match self.threads[i] {
                None => true,
                Some(sid) => self.thread_states[sid].completed,
            };
            if free {
                proof {
                    assert(self.slot_free(i as int));
                }
                return true;
            }
            i = i + 1;
        }
        false
    }

    /// The first free slot. Running out of slots is fatal: the caller must
    /// check first.
    fn alloc_tid(&self) -> (tid: Tid)
        requires
            self.wf(),
            exists|i: int| 0 <= i < self.threads@.len() && self.slot_free(i),
        ensures
            tid < self.threads@.len(),
            self.slot_free(tid as int),
            forall|j: int| 0 <= j < tid ==> !self.slot_free(j),
    {
        let n = self.threads.len();
        let mut i: usize = 0;
        while i < n
            invariant
                self.wf(),
                i <= n,
                n == self.threads@.len(),
                forall|j: int| 0 <= j < i ==> !self.slot_free(j),
            decreases n - i,
        {
            let free = match self.threads[i] {
                None => true,
                Some(sid) => self.thread_states[sid].completed,
            };
            if free {
                return i;
            }
            i = i + 1;
        }
        proof {
            assert(false);
        }
        vstd::pervasive::unreached()
    }

    /// Occupies the first free slot — one never used, or one whose prior
    /// occupant has completed and is reclaimed here — with fresh shared
    /// state owning `context`, and registers the slot with the policy.
    /// Exhausting the slots is fatal: a pool sized for its deployment
    /// never does.
    pub fn add(&mut self, context: C) -> (tid: Tid)
        requires
            old(self).wf(),
            exists|i: int| 0 <= i < old(self).threads@.len() && old(self).slot_free(i),
        ensures
            final(self).wf(),
            tid < old(self).threads@.len(),
            old(self).slot_free(tid as int),
            forall|j: int| 0 <= j < tid ==> !old(self).slot_free(j),
            final(self).threads@ == old(self).threads@.update(
                tid as int,
                Some(old(self).thread_states@.len() as StateId),
            ),
            final(self).thread_states@.len() == old(self).thread_states@.len() + 1,
            forall|i: int|
                0 <= i < old(self).thread_states@.len() ==> final(self).thread_states@[i] == old(
                    self,
                ).thread_states@[i],
            final(self).thread_states@.last().completed == false,
            final(self).thread_states@.last().waker is None,
            final(self).thread_states@.last().context == Some(context),
            final(self).scheduler.tids() == old(self).scheduler.tids().insert(tid),
            final(self).sleep_states@ == old(self).sleep_states@,
            final(self).timer == old(self).timer,
    {
        let tid = self.alloc_tid();
        let fut = ThreadFuture::new(&mut self.thread_states, context);
        self.threads[tid] = Some(fut.state);
        self.scheduler.push(tid);
        proof {
            assert forall|t: usize| #[trigger] self.scheduler.tids().contains(t) implies t
                < self.threads@.len() && self.threads@[t as int] is Some by {
                if t != tid {
                    assert(old(self).scheduler.tids().contains(t));
                }
            }
        }
        tid
    }

    /// One quantum on one core. On the designated timer-owning core (and
    /// only there) the timer is drained first: the wheel advances to
    /// `now`, every due sleep state is marked completed exactly once, and
    /// each registered waker's task is re-enqueued on the executor — the
    /// identical enqueue action used at spawn time. Then, if a thread is
    /// active on this core, the policy is asked whether it should yield.
    pub fn tick(
        &mut self,
        exec: &mut Executor,
        hw: &mut HardwareTimer,
        cpu_id: usize,
        tid: Option<Tid>,
        now: Tick,
    ) -> (r: bool)
        requires
            old(self).wf(),
            old(exec).wf(),
            now >= old(self).timer.wheel.elapsed,
            now <= u64::MAX - MAX_TO,
            old(exec).queue@.len() + old(self).timer.wheel.entries@.len() <= QUEUE_CAPACITY,
        ensures
            final(self).wf(),
            final(exec).wf(),
            final(self).threads == old(self).threads,
            final(self).thread_states == old(self).thread_states,
            final(self).scheduler.tids() == old(self).scheduler.tids(),
            tid is None ==> r == false,
            tid matches Some(t) ==> r == old(self).scheduler.yields(t),
            cpu_id != 0 ==> ({
                &&& final(self).timer == old(self).timer
                &&& final(self).sleep_states == old(self).sleep_states
                &&& *final(exec) == *old(exec)
                &&& *final(hw) == *old(hw)
            }),
            cpu_id == 0 ==> ({
                &&& final(self).timer.wheel.elapsed == now
                &&& final(self).timer.wheel.capacity == old(self).timer.wheel.capacity
                &&& final(self).timer.wheel.entries@ == old(self).timer.wheel.entries@.filter(
                    |e: TimerEntry| e.deadline > now,
                )
                &&& retime_post(
                    old(self).timer.cur_timeout,
                    final(self).timer.wheel.entries@,
                    now,
                    *old(hw),
                    *final(hw),
                    final(self).timer.cur_timeout,
                )
                &&& final(self).sleep_states@ == states_after_drain(
                    old(self).sleep_states@,
                    old(self).timer.wheel.entries@.filter(|e: TimerEntry| e.deadline <= now),
                )
                &&& final(exec).queue@ == old(exec).queue@ + tasks_woken_by_drain(
                    old(self).sleep_states@,
                    old(self).timer.wheel.entries@.filter(|e: TimerEntry| e.deadline <= now),
                )
            }),
    {
        if cpu_id == 0 {
            let ghost entries0 = self.timer.wheel.entries@;
            let ghost sleeps0 = self.sleep_states@;
            let ghost queue0 = exec.queue@;
            let fired = self.timer.wakeup(now, hw);
            let ghost fired_seq = fired@;
            let ghost timer1 = self.timer;
            let ghost hw1 = *hw;
            proof {
                broadcast use vstd::seq_lib::group_to_multiset_ensures;

                let pred = |e: TimerEntry| e.deadline <= now;
                assert forall|k: int| 0 <= k < fired_seq.len() implies (#[trigger] fired_seq[k]).waker
                    < sleeps0.len() by {
                    let f = fired_seq[k];
                    assert(fired_seq.contains(f));
                    lemma_filter_count(entries0, pred, f);
                    entries0.lemma_filter_pred(pred, k);
                    assert(entries0.to_multiset().count(f) > 0);
                    assert(entries0.contains(f));
                    let m = choose|m: int| 0 <= m < entries0.len() && entries0[m] == f;
                    assert(entries0[m].waker < sleeps0.len());
                };
                entries0.lemma_filter_len(pred);
                assert(fired_seq.skip(0) =~= fired_seq);
            }
            let n = fired.len();
            let mut i: usize = 0;
            while i < n
                invariant
                    i <= n,
                    n == fired_seq.len(),
                    fired@ == fired_seq,
                    queue0.len() + n <= QUEUE_CAPACITY,
                    forall|k: int|
                        0 <= k < fired_seq.len() ==> (#[trigger] fired_seq[k]).waker
                            < sleeps0.len(),
                    self.sleep_states@.len() == sleeps0.len(),
                    self.threads == old(self).threads,
                    self.thread_states == old(self).thread_states,
                    self.scheduler == old(self).scheduler,
                    self.timer == timer1,
                    *hw == hw1,
                    exec.queue@.len() <= queue0.len() + i,
                    states_after_drain(sleeps0, fired_seq) == states_after_drain(
                        self.sleep_states@,
                        fired_seq.skip(i as int),
                    ),
                    queue0 + tasks_woken_by_drain(sleeps0, fired_seq) == exec.queue@
                        + tasks_woken_by_drain(self.sleep_states@, fired_seq.skip(i as int)),
                decreases n - i,
            {
                proof {
                    assert(fired_seq.skip(i as int).first() == fired_seq[i as int]);
                    assert(fired_seq.skip(i as int).drop_first() =~= fired_seq.skip(i as int + 1));
                }
                let ghost sleeps_pre = self.sleep_states@;
                let e = fired[i];
                let sid = e.waker;
                let woken: Option<TaskId> = self.sleep_states[sid].waker;
                let st = &mut self.sleep_states[sid];
                st.completed = true;
                st.waker = None;
                match woken {
                    Some(t) => exec.wake(t),
                    None => (),
                }
                proof {
                    assert(self.sleep_states@ == sleeps_pre.update(
                        sid as int,
                        SleepSharedState { completed: true, waker: None },
                    ));
                }
                i = i + 1;
            }
            proof {
                assert(fired_seq.skip(n as int) =~= Seq::<TimerEntry>::empty());
                assert(self.sleep_states@ == states_after_drain(sleeps0, fired_seq));
                assert(exec.queue@ =~= queue0 + tasks_woken_by_drain(sleeps0, fired_seq));
                let keep = |e: TimerEntry| e.deadline > now;
                let pred = |e: TimerEntry| e.deadline <= now;
                assert forall|k: int| 0 <= k < self.timer.wheel.entries@.len() implies (
                #[trigger] self.timer.wheel.entries@[k]).waker < self.sleep_states@.len() by {
                    broadcast use vstd::seq_lib::group_to_multiset_ensures;

                    let f = self.timer.wheel.entries@[k];
                    assert(self.timer.wheel.entries@.contains(f));
                    lemma_filter_count(entries0, keep, f);
                    entries0.lemma_filter_pred(keep, k);
                    assert(entries0.to_multiset().count(f) > 0);
                    assert(entries0.contains(f));
                    let m = choose|m: int| 0 <= m < entries0.len() && entries0[m] == f;
                    assert(entries0[m].waker < sleeps0.len());
                };
            }
        }
        match tid {
            Some(t) => self.scheduler.tick(t),
            None => false,
        }
    }

    /// The future of the thread occupying slot `tid`: a fresh handle
    /// referring to exactly the shared state the slot holds — a shared
    /// reference, not a duplicate. Asking for an unoccupied slot is a
    /// caller bug, excluded by `requires`.
    pub fn slot_future(&self, tid: Tid) -> (fut: ThreadFuture)
        requires
            self.wf(),
            tid < self.threads@.len(),
            self.threads@[tid as int] is Some,
        ensures
            fut.state == self.threads@[tid as int]->Some_0,
            fut.state < self.thread_states@.len(),
    {
        match self.threads[tid] {
            Some(sid) => ThreadFuture { state: sid },
            None => {
                proof {
                    assert(false);
                }
                vstd::pervasive::unreached()
            },
        }
    }

    /// Asks the policy for the next slot this core should run; a yielded
    /// slot's shared state is handed out through [`WakerPool::slot_future`]
    /// on the popped identifier.
    pub fn run(&mut self, cpu_id: usize) -> (r: Option<ThreadFuture>)
        requires
            old(self).wf(),
        ensures
            final(self).wf(),
            final(self).threads == old(self).threads,
            final(self).thread_states == old(self).thread_states,
            final(self).sleep_states == old(self).sleep_states,
            final(self).timer == old(self).timer,
            final(self).scheduler.tids().subset_of(old(self).scheduler.tids()),
            r matches Some(fut) ==> fut.state < old(self).thread_states@.len() && exists|t: usize|
                #[trigger] old(self).scheduler.tids().contains(t) && t < old(self).threads@.len()
                    && old(self).threads@[t as int] == Some(fut.state),
    {
        let popped = self.scheduler.pop(cpu_id);
        match popped {
            None => None,
            Some(tid) => {
                proof {
                    assert(old(self).scheduler.tids().contains(tid));
                    assert(self.threads@[tid as int] is Some);
                }
                Some(self.slot_future(tid))
            },
        }
    }

    /// Pure delegation: the policy's notion of priority for `tid`.
    pub fn set_priority(&mut self, tid: Tid, priority: u8)
        requires
            old(self).wf(),
        ensures
            final(self).wf(),
            final(self).threads == old(self).threads,
            final(self).thread_states == old(self).thread_states,
            final(self).sleep_states == old(self).sleep_states,
            final(self).timer == old(self).timer,
            final(self).scheduler.tids() == old(self).scheduler.tids(),
    {
        self.scheduler.set_priority(tid, priority);
    }

    /// A future that resolves `time` ticks from `now`. A zero duration —
    /// or a deadline past the end of the clock's range — completes
    /// immediately and stores nothing in the wheel; otherwise the fresh
    /// sleep state is registered with the timer at deadline `now + time`
    /// and stays pending until a wakeup advances past it.
    pub fn sleep(&mut self, time: Tick, now: Tick, hw: &mut HardwareTimer) -> (fut: SleepFuture)
        requires
            old(self).wf(),
            now >= old(self).timer.wheel.elapsed,
            now <= u64::MAX - MAX_TO,
            time > 0 && time <= u64::MAX - now ==> old(self).timer.wheel.entries@.len() < old(
                self,
            ).timer.wheel.capacity,
        ensures
            final(self).wf(),
            fut.state == old(self).sleep_states@.len(),
            final(self).threads == old(self).threads,
            final(self).thread_states == old(self).thread_states,
            final(self).scheduler == old(self).scheduler,
            (time == 0 || time > u64::MAX - now) ==> ({
                &&& final(self).sleep_states@ == old(self).sleep_states@.push(
                    SleepSharedState { completed: true, waker: None },
                )
                &&& final(self).timer == old(self).timer
                &&& *final(hw) == *old(hw)
            }),
            (time > 0 && time <= u64::MAX - now) ==> ({
                &&& final(self).sleep_states@ == old(self).sleep_states@.push(
                    SleepSharedState { completed: false, waker: None },
                )
                &&& final(self).timer.wheel.entries@ == old(self).timer.wheel.entries@.push(
                    TimerEntry { deadline: (now + time) as Tick, waker: fut.state },
                )
                &&& final(self).timer.wheel.elapsed == old(self).timer.wheel.elapsed
                &&& final(self).timer.wheel.capacity == old(self).timer.wheel.capacity
                &&& retime_post(
                    old(self).timer.cur_timeout,
                    final(self).timer.wheel.entries@,
                    now,
                    *old(hw),
                    *final(hw),
                    final(self).timer.cur_timeout,
                )
            }),
    {
        let fut = SleepFuture::new(&mut self.sleep_states);
        if time == 0 || time > u64::MAX - now {
            let st = &mut self.sleep_states[fut.state];
            st.completed = true;
            proof {
                assert(self.sleep_states@ =~= old(self).sleep_states@.push(
                    SleepSharedState { completed: true, waker: None },
                ));
            }
        } else {
            let deadline = now + time;
            let immediate = self.timer.schedule(fut.state, deadline, now, hw);
            proof {
                assert(!immediate);
            }
        }
        fut
    }
}

/// Law: no two live threads ever share a slot. An addition only takes a
/// slot that is free — never used, or its occupant completed — so while
/// slot `tid1`'s occupant is live, any slot an addition may take is a
/// different one.
pub proof fn lemma_live_slot_is_never_reassigned<C, S: Scheduler>(
    pool: WakerPool<C, S>,
    tid1: Tid,
    tid2: Tid,
)
    requires
        tid1 < pool.threads@.len(),
        !pool.slot_free(tid1 as int),
        tid2 < pool.threads@.len(),
        pool.slot_free(tid2 as int),
    ensures
        tid1 != tid2,
{
}

} // verus!
