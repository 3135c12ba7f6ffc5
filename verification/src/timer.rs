//! Deadline scheduler: a bounded timing wheel of pending wakers, reconciled
//! against the one hardware countdown timer.
//!
//! The wheel maps a monotonic tick counter to the set of pending
//! `(deadline, waker)` entries. `schedule` refuses to store a deadline that
//! has already passed (the caller completes immediately instead), `wakeup`
//! hands back every entry whose deadline has elapsed exactly once, and the
//! hardware line is reprogrammed only when the minimum pending deadline has
//! changed since it was last programmed: to that minimum, clamped so the
//! machine is never silent longer than [`MAX_TO`] ticks while work is
//! pending, and to the infinite deadline — disarmed — when nothing is.
use vstd::multiset::Multiset;
use vstd::prelude::*;

use crate::sbi::{set_timer, HardwareTimer, INFINITY_TO};
use crate::PollResult;

verus! {

/// One step of the monotonic hardware clock.
pub type Tick = u64;

/// Opaque handle of a waker: the runtime hands it back to the caller when
/// the associated deadline elapses, and the caller invokes the real wake
/// action it stands for.
pub type WakerId = usize;

/// Longest silence the hardware timer is allowed while entries are
/// pending: a programmed deadline is clamped to at most this many ticks
/// from now.
pub const MAX_TO: u64 = 100000000000;

/// Wheel capacity used by [`Timer::const_new`]: entries pending at once.
pub const WHEEL_CAPACITY: usize = 2;

/// A pending deadline: the waker is handed out exactly once, when the wheel
/// advances past `deadline`.
#[derive(Clone, Copy, PartialEq, Eq, Structural, Debug)]
pub struct TimerEntry {
    pub deadline: Tick,
    pub waker: WakerId,
}

/// The set of pending entries together with how far the clock has advanced.
/// Capacity is fixed at construction; scheduling beyond it is a caller
/// error, not a recoverable condition.
pub struct TimingWheel {
    pub entries: Vec<TimerEntry>,
    pub capacity: usize,
    pub elapsed: Tick,
}

/// The earliest pending deadline, or `None` when the wheel is empty.
pub open spec fn min_next_event_spec(s: Seq<TimerEntry>) -> Option<Tick>
    decreases s.len(),
{
    if s.len() == 0 {
        None
    } else {
        match min_next_event_spec(s.drop_last()) {
            None => Some(s.last().deadline),
            Some(m) => Some(if s.last().deadline <= m {
                s.last().deadline
            } else {
                m
            }),
        }
    }
}

/// The value the hardware line is armed with for a given minimum pending
/// deadline: the deadline itself, clamped to `now + MAX_TO`; or the
/// infinite deadline [`INFINITY_TO`] — the line disarmed — when nothing is
/// pending.
pub open spec fn programmed_deadline(next: Option<Tick>, now: Tick) -> int {
    match next {
        None => INFINITY_TO as int,
        Some(t) => {
            let clamp: int = now + MAX_TO;
            if t <= clamp {
                t as int
            } else {
                clamp
            }
        },
    }
}

/// What one reconciliation against the hardware line does: the remembered
/// minimum is brought up to date, and the line is rewritten exactly when
/// that minimum differs from the one remembered at the last programming.
pub open spec fn retime_post(
    pre_cur: Option<Tick>,
    entries: Seq<TimerEntry>,
    now: Tick,
    hw0: HardwareTimer,
    hw1: HardwareTimer,
    cur1: Option<Tick>,
) -> bool {
    &&& cur1 == min_next_event_spec(entries)
    &&& (min_next_event_spec(entries) != pre_cur ==> hw1.deadline == programmed_deadline(
        min_next_event_spec(entries),
        now,
    ))
    &&& (min_next_event_spec(entries) == pre_cur ==> hw1 == hw0)
}

impl TimingWheel {
    pub open spec fn wf(self) -> bool {
        &&& self.entries@.len() <= self.capacity
        &&& forall|i: int|
            0 <= i < self.entries@.len() ==> (#[trigger] self.entries@[i]).deadline > self.elapsed
    }

    /// An empty wheel whose clock starts at `at`.
    pub fn new(capacity: usize, at: Tick) -> (w: TimingWheel)
        ensures
            w.wf(),
            w.capacity == capacity,
            w.elapsed == at,
            w.entries@ == Seq::<TimerEntry>::empty(),
    {
        TimingWheel { entries: Vec::new(), capacity, elapsed: at }
    }

    /// How far the wheel's clock has advanced.
    pub fn elapsed(&self) -> (r: Tick)
        ensures
            r == self.elapsed,
    {
        self.elapsed
    }

    /// Stores one entry. The deadline must still be ahead of the wheel's
    /// clock, and room must remain: both are the caller's burden.
    pub fn schedule(&mut self, tick: Tick, waker: WakerId)
        requires
            old(self).wf(),
            tick > old(self).elapsed,
            old(self).entries@.len() < old(self).capacity,
        ensures
            final(self).wf(),
            final(self).entries@ == old(self).entries@.push(
                TimerEntry { deadline: tick, waker },
            ),
            final(self).capacity == old(self).capacity,
            final(self).elapsed == old(self).elapsed,
    {
        self.entries.push(TimerEntry { deadline: tick, waker });
    }

    /// Advances the clock to `moment` and removes every entry whose deadline
    /// has passed, handing each back exactly once, in storage order.
    pub fn fast_forward(&mut self, moment: Tick) -> (fired: Vec<TimerEntry>)
        requires
            old(self).wf(),
            moment >= old(self).elapsed,
        ensures
            final(self).wf(),
            final(self).capacity == old(self).capacity,
            final(self).elapsed == moment,
            fired@ == old(self).entries@.filter(|e: TimerEntry| e.deadline <= moment),
            final(self).entries@ == old(self).entries@.filter(
                |e: TimerEntry| e.deadline > moment,
            ),
    {
        let ghost all = self.entries@;
        let mut fired: Vec<TimerEntry> = Vec::new();
        let mut kept: Vec<TimerEntry> = Vec::new();
        proof {
            lemma_filter_empty::<TimerEntry>(|e: TimerEntry| e.deadline <= moment);
            lemma_filter_empty::<TimerEntry>(|e: TimerEntry| e.deadline > moment);
            assert(all.take(0) =~= Seq::<TimerEntry>::empty());
        }
        let n = self.entries.len();
        let mut i: usize = 0;
        while i < n
            invariant
                i <= n,
                n == all.len(),
                self.entries@ == all,
                fired@ == all.take(i as int).filter(|e: TimerEntry| e.deadline <= moment),
                kept@ == all.take(i as int).filter(|e: TimerEntry| e.deadline > moment),
            decreases n - i,
        {
            let e = self.entries[i];
            if e.deadline <= moment {
                fired.push(e);
            } else {
                kept.push(e);
            }
            proof {
                assert(all.take(i + 1).drop_last() =~= all.take(i as int));
                lemma_filter_push(
                    all.take(i as int),
                    e,
                    |x: TimerEntry| x.deadline <= moment,
                );
                lemma_filter_push(
                    all.take(i as int),
                    e,
                    |x: TimerEntry| x.deadline > moment,
                );
                assert(all.take(i + 1) =~= all.take(i as int).push(e));
            }
            i = i + 1;
        }
        proof {
            assert(all.take(n as int) =~= all);
        }
        self.entries = kept;
        self.elapsed = moment;
        proof {
            let keep = |e: TimerEntry| e.deadline > moment;
            assert forall|j: int| 0 <= j < self.entries@.len() implies (#[trigger] self.entries@[j]).deadline
                > self.elapsed by {
                all.lemma_filter_pred(keep, j);
            }
            all.lemma_filter_len(keep);
        }
        fired
    }

    /// The earliest pending deadline, or `None` when the wheel is empty.
    pub fn min_next_event(&self) -> (r: Option<Tick>)
        ensures
            r == min_next_event_spec(self.entries@),
    {
        let ghost all = self.entries@;
        let mut r: Option<Tick> = None;
        proof {
            assert(all.take(0) =~= Seq::<TimerEntry>::empty());
        }
        let n = self.entries.len();
        let mut i: usize = 0;
        while i < n
            invariant
                i <= n,
                n == all.len(),
                self.entries@ == all,
                r == min_next_event_spec(all.take(i as int)),
            decreases n - i,
        {
            let e = self.entries[i];
            r = match r {
                None => Some(e.deadline),
                Some(m) => Some(if e.deadline <= m {
                    e.deadline
                } else {
                    m
                }),
            };
            proof {
                assert(all.take(i + 1).drop_last() =~= all.take(i as int));
                assert(all.take(i + 1).last() == e);
            }
            i = i + 1;
        }
        proof {
            assert(all.take(n as int) =~= all);
        }
        r
    }
}

/// Filtering an empty sequence yields an empty sequence.
pub proof fn lemma_filter_empty<A>(pred: spec_fn(A) -> bool)
    ensures
        Seq::<A>::empty().filter(pred) == Seq::<A>::empty(),
{
    reveal(Seq::filter);
}

/// Filtering commutes with appending one element at the back.
pub proof fn lemma_filter_push<A>(s: Seq<A>, e: A, pred: spec_fn(A) -> bool)
    ensures
        s.push(e).filter(pred) == if pred(e) {
            s.filter(pred).push(e)
        } else {
            s.filter(pred)
        },
{
    reveal(Seq::filter);
    assert(s.push(e).drop_last() =~= s);
    assert(s.push(e).last() == e);
}

/// An element that satisfies the predicate keeps its multiplicity under
/// `filter`; one that does not is absent from the result.
pub proof fn lemma_filter_count<A>(s: Seq<A>, pred: spec_fn(A) -> bool, x: A)
    ensures
        pred(x) ==> s.filter(pred).to_multiset().count(x) == s.to_multiset().count(x),
        !pred(x) ==> s.filter(pred).to_multiset().count(x) == 0,
    decreases s.len(),
{
    broadcast use vstd::seq_lib::group_to_multiset_ensures;

    if s.len() == 0 {
        reveal(Seq::filter);
        assert(s =~= Seq::<A>::empty());
        assert(s.filter(pred) == s);
        assert(s.to_multiset() =~= Multiset::<A>::empty());
    } else {
        let head = s.drop_last();
        lemma_filter_count(head, pred, x);
        lemma_filter_push(head, s.last(), pred);
        assert(head.push(s.last()) =~= s);
        assert(s.to_multiset() =~= head.to_multiset().insert(s.last()));
        if pred(s.last()) {
            assert(s.filter(pred) == head.filter(pred).push(s.last()));
            assert(s.filter(pred).to_multiset() =~= head.filter(pred).to_multiset().insert(
                s.last(),
            ));
        }
    }
}

/// The minimum pending deadline is a deadline of some pending entry, and no
/// pending entry's deadline lies below it.
pub proof fn lemma_min_next_event_properties(s: Seq<TimerEntry>)
    ensures
        min_next_event_spec(s) is None <==> s.len() == 0,
        min_next_event_spec(s) matches Some(m) ==> exists|i: int|
            0 <= i < s.len() && (#[trigger] s[i]).deadline == m,
        min_next_event_spec(s) matches Some(m) ==> forall|i: int|
            0 <= i < s.len() ==> (#[trigger] s[i]).deadline >= m,
    decreases s.len(),
{
    if s.len() > 0 {
        lemma_min_next_event_properties(s.drop_last());
        if min_next_event_spec(s) is Some {
            let m = min_next_event_spec(s)->Some_0;
            if s.last().deadline == m {
                assert(s[s.len() - 1].deadline == m);
            } else {
                let head = s.drop_last();
                assert(min_next_event_spec(head) == Some(m));
                let i = choose|i: int| 0 <= i < head.len() && (#[trigger] head[i]).deadline == m;
                assert(s[i].deadline == m);
            }
            assert forall|i: int| 0 <= i < s.len() implies (#[trigger] s[i]).deadline >= m by {
                if i < s.len() - 1 {
                    assert(s.drop_last()[i] == s[i]);
                }
            };
        }
    }
}

/// Law: after the wheel has been fast-forwarded to `now`, an entry whose
/// deadline has passed is handed out exactly as many times as it was
/// pending — each pending entry fires exactly once — and no entry whose
/// deadline is still ahead is handed out at all.
pub proof fn lemma_wakeup_fires_due_entries_exactly_once(
    pending: Seq<TimerEntry>,
    fired: Seq<TimerEntry>,
    now: Tick,
    e: TimerEntry,
)
    requires
        fired == pending.filter(|x: TimerEntry| x.deadline <= now),
    ensures
        e.deadline <= now ==> fired.to_multiset().count(e) == pending.to_multiset().count(e),
        e.deadline > now ==> fired.to_multiset().count(e) == 0,
{
    lemma_filter_count(pending, |x: TimerEntry| x.deadline <= now, e);
}

/// The timing wheel together with the minimum deadline remembered at the
/// last hardware programming: the pair the runtime reconciles on every
/// mutation.
pub struct Timer {
    pub wheel: TimingWheel,
    pub cur_timeout: Option<Tick>,
}

impl Timer {
    /// The remembered minimum is stale only inside a mutation: every
    /// operation leaves it equal to the wheel's true minimum.
    pub open spec fn wf(self) -> bool {
        &&& self.wheel.wf()
        &&& self.cur_timeout == min_next_event_spec(self.wheel.entries@)
    }

    /// A timer usable before the clock is read: wheel of capacity
    /// [`WHEEL_CAPACITY`], clock at zero, nothing programmed.
    pub fn const_new() -> (t: Timer)
        ensures
            t.wf(),
            t.wheel.capacity == WHEEL_CAPACITY,
            t.wheel.elapsed == 0,
            t.wheel.entries@ == Seq::<TimerEntry>::empty(),
            t.cur_timeout is None,
    {
        Timer { wheel: TimingWheel::new(WHEEL_CAPACITY, 0), cur_timeout: None }
    }

    /// An empty timer whose wheel starts at the current clock reading.
    pub fn new(capacity: usize, now: Tick) -> (t: Timer)
        ensures
            t.wf(),
            t.wheel.capacity == capacity,
            t.wheel.elapsed == now,
            t.wheel.entries@ == Seq::<TimerEntry>::empty(),
            t.cur_timeout is None,
    {
        Timer { wheel: TimingWheel::new(capacity, now), cur_timeout: None }
    }

    /// Reconciles the hardware line with the wheel: rewrites it exactly
    /// when the minimum pending deadline differs from the one remembered
    /// at the last programming, and then only — an unchanged minimum
    /// leaves both the timer and the line untouched.
    pub fn retime(&mut self, now: Tick, hw: &mut HardwareTimer) -> (changed: bool)
        requires
            now <= u64::MAX - MAX_TO,
        ensures
            final(self).wheel == old(self).wheel,
            retime_post(
                old(self).cur_timeout,
                old(self).wheel.entries@,
                now,
                *old(hw),
                *final(hw),
                final(self).cur_timeout,
            ),
            changed <==> min_next_event_spec(old(self).wheel.entries@) != old(self).cur_timeout,
            !changed ==> *final(self) == *old(self) && *final(hw) == *old(hw),
    {
        let timeout = self.wheel.min_next_event();
        let changed = match (timeout, self.cur_timeout) {
            (None, None) => false,
            (Some(a), Some(b)) => a != b,
            _ => true,
        };
        if changed {
            self.cur_timeout = timeout;
            let to = match timeout {
                None => INFINITY_TO,
                Some(t) => {
                    let clamp = now + MAX_TO;
                    if t <= clamp {
                        t
                    } else {
                        clamp
                    }
                },
            };
            set_timer(hw, to);
        }
        changed
    }

    /// Tries to store `waker` to fire at `tick`. A deadline at or before the
    /// wheel's clock reports immediate completion and stores nothing;
    /// otherwise the entry is stored and the hardware line reconciled.
    /// Storing needs room in the wheel: exceeding the capacity is a
    /// deployment error, not a recoverable one.
    pub fn schedule(
        &mut self,
        waker: WakerId,
        tick: Tick,
        now: Tick,
        hw: &mut HardwareTimer,
    ) -> (immediate: bool)
        requires
            old(self).wf(),
            now <= u64::MAX - MAX_TO,
            tick > old(self).wheel.elapsed ==> old(self).wheel.entries@.len() < old(
                self,
            ).wheel.capacity,
        ensures
            final(self).wf(),
            immediate <==> tick <= old(self).wheel.elapsed,
            immediate ==> *final(self) == *old(self) && *final(hw) == *old(hw),
            !immediate ==> final(self).wheel.entries@ == old(self).wheel.entries@.push(
                TimerEntry { deadline: tick, waker },
            ),
            !immediate ==> final(self).wheel.elapsed == old(self).wheel.elapsed
                && final(self).wheel.capacity == old(self).wheel.capacity,
            !immediate ==> retime_post(
                old(self).cur_timeout,
                final(self).wheel.entries@,
                now,
                *old(hw),
                *final(hw),
                final(self).cur_timeout,
            ),
    {
        let elapsed = self.wheel.elapsed();
        if elapsed >= tick {
            return true;
        }
        self.wheel.schedule(tick, waker);
        let _ = self.retime(now, hw);
        false
    }

    /// Advances the wheel to `now`, hands back every waker whose deadline
    /// has passed — exactly once each, in storage order — and reconciles
    /// the hardware line.
    pub fn wakeup(&mut self, now: Tick, hw: &mut HardwareTimer) -> (fired: Vec<TimerEntry>)
        requires
            old(self).wf(),
            now >= old(self).wheel.elapsed,
            now <= u64::MAX - MAX_TO,
        ensures
            final(self).wf(),
            final(self).wheel.elapsed == now,
            final(self).wheel.capacity == old(self).wheel.capacity,
            fired@ == old(self).wheel.entries@.filter(|e: TimerEntry| e.deadline <= now),
            final(self).wheel.entries@ == old(self).wheel.entries@.filter(
                |e: TimerEntry| e.deadline > now,
            ),
            retime_post(
                old(self).cur_timeout,
                final(self).wheel.entries@,
                now,
                *old(hw),
                *final(hw),
                final(self).cur_timeout,
            ),
    {
        let fired = self.wheel.fast_forward(now);
        let _ = self.retime(now, hw);
        fired
    }
}

/// A deadline a caller waits on: polling it suspends until the wheel's
/// clock passes `target_tick`.
pub struct Timeout {
    pub target_tick: Tick,
}

impl Timeout {
    /// A timeout `ticks` from `now`. A sum past the end of the clock's range
    /// is resolved as a deadline that completes immediately.
    pub fn from(now: Tick, ticks: Tick) -> (t: Timeout)
        ensures
            now + ticks <= u64::MAX ==> t.target_tick == now + ticks,
            now + ticks > u64::MAX ==> t.target_tick == 0,
    {
        if ticks <= u64::MAX - now {
            Timeout { target_tick: now + ticks }
        } else {
            Timeout { target_tick: 0 }
        }
    }

    /// One poll: ready as soon as the wheel's clock has reached the target,
    /// else the waker is stored to fire at the target tick.
    pub fn poll(
        &self,
        timer: &mut Timer,
        hw: &mut HardwareTimer,
        waker: WakerId,
        now: Tick,
    ) -> (r: PollResult)
        requires
            old(timer).wf(),
            now <= u64::MAX - MAX_TO,
            self.target_tick > old(timer).wheel.elapsed ==> old(timer).wheel.entries@.len() < old(
                timer,
            ).wheel.capacity,
        ensures
            final(timer).wf(),
            r == PollResult::Ready <==> self.target_tick <= old(timer).wheel.elapsed,
            r == PollResult::Ready ==> *final(timer) == *old(timer) && *final(hw) == *old(hw),
            r == PollResult::Pending ==> final(timer).wheel.entries@ == old(
                timer,
            ).wheel.entries@.push(TimerEntry { deadline: self.target_tick, waker }),
            r == PollResult::Pending ==> final(timer).wheel.elapsed == old(timer).wheel.elapsed
                && final(timer).wheel.capacity == old(timer).wheel.capacity,
            r == PollResult::Pending ==> retime_post(
                old(timer).cur_timeout,
                final(timer).wheel.entries@,
                now,
                *old(hw),
                *final(hw),
                final(timer).cur_timeout,
            ),
    {
        if timer.schedule(waker, self.target_tick, now, hw) {
            PollResult::Ready
        } else {
            PollResult::Pending
        }
    }
}

} // verus!
