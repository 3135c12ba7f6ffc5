//! The injected scheduling policy: it decides the order in which thread
//! slots run, while the runtime only guarantees when it calls `push`, `pop`
//! and `tick`.
//!
//! The contract fixes membership, not order: a policy may hand the
//! registered identifiers out in any order it likes, but it may never
//! invent one it was not given. That is exactly what the pool needs to know
//! that every identifier a policy yields names a live slot.
use vstd::prelude::*;

verus! {

/// A scheduling policy over thread identifiers. Ordering among them is
/// entirely the policy's business; the runtime relies only on the policy
/// yielding identifiers it was given.
pub trait Scheduler: Sized {
    /// The identifiers currently registered with the policy.
    spec fn tids(&self) -> Set<usize>;

    /// The policy's yield decision for `tid` in its current state: what
    /// [`Scheduler::tick`] answers.
    spec fn yields(&self, tid: usize) -> bool;

    /// Registers `tid` as schedulable.
    fn push(&mut self, tid: usize)
        ensures
            final(self).tids() == old(self).tids().insert(tid),
    ;

    /// Picks the next identifier for the given core to run, if the policy
    /// has one. The policy may keep or retire what it hands out, but never
    /// yields an identifier it was not given.
    fn pop(&mut self, cpu_id: usize) -> (r: Option<usize>)
        ensures
            final(self).tids().subset_of(old(self).tids()),
            r matches Some(t) ==> old(self).tids().contains(t),
    ;

    /// One quantum elapsed for the running `tid`; reports whether the
    /// policy wants it to yield.
    fn tick(&mut self, tid: usize) -> (r: bool)
        ensures
            final(self).tids() == old(self).tids(),
            r == old(self).yields(tid),
    ;

    /// Adjusts the policy's priority for `tid`; purely the policy's
    /// business.
    fn set_priority(&mut self, tid: usize, priority: u8)
        ensures
            final(self).tids() == old(self).tids(),
    ;
}

/// The simplest concrete policy: identifiers run in the order they were
/// registered, on whichever core asks first, with no preemption and no
/// priorities.
pub struct FifoScheduler {
    pub order: Vec<usize>,
}

impl FifoScheduler {
    pub fn new() -> (s: FifoScheduler)
        ensures
            s.order@ == Seq::<usize>::empty(),
            s.tids() == Set::<usize>::empty(),
    {
        let s = FifoScheduler { order: Vec::new() };
        proof {
            assert(s.order@.to_set() =~= Set::<usize>::empty());
        }
        s
    }
}

impl Scheduler for FifoScheduler {
    open spec fn tids(&self) -> Set<usize> {
        self.order@.to_set()
    }

    open spec fn yields(&self, tid: usize) -> bool {
        false
    }

    fn push(&mut self, tid: usize)
        ensures
            final(self).order@ == old(self).order@.push(tid),
    {
        self.order.push(tid);
        proof {
            assert forall|t: usize| self.order@.to_set().contains(t) implies old(
                self,
            ).order@.to_set().insert(tid).contains(t) by {
                let i = choose|i: int| 0 <= i < self.order@.len() && self.order@[i] == t;
                if i < old(self).order@.len() {
                    assert(old(self).order@[i] == t);
                }
            }
            assert forall|t: usize| old(self).order@.to_set().insert(tid).contains(t) implies self
                .order@.to_set().contains(t) by {
                if old(self).order@.to_set().contains(t) {
                    let i = choose|i: int| 0 <= i < old(self).order@.len() && old(self).order@[i]
                        == t;
                    assert(self.order@[i] == t);
                } else {
                    assert(self.order@[old(self).order@.len() as int] == tid);
                }
            }
            assert(self.order@.to_set() =~= old(self).order@.to_set().insert(tid));
        }
    }

    fn pop(&mut self, _cpu_id: usize) -> (r: Option<usize>)
        ensures
            old(self).order@.len() == 0 ==> r is None && final(self).order@ == old(self).order@,
            old(self).order@.len() > 0 ==> r == Some(old(self).order@.first())
                && final(self).order@ == old(self).order@.drop_first(),
    {
        if self.order.len() == 0 {
            None
        } else {
            let tid = self.order.remove(0);
            proof {
                assert(old(self).order@[0] == tid);
                assert forall|t: usize| self.order@.to_set().contains(t) implies old(
                    self,
                ).order@.to_set().contains(t) by {
                    let i = choose|i: int| 0 <= i < self.order@.len() && self.order@[i] == t;
                    assert(old(self).order@[i + 1] == t);
                }
                assert(old(self).order@.to_set().contains(tid));
            }
            Some(tid)
        }
    }

    fn tick(&mut self, _tid: usize) -> (r: bool)
        ensures
            *final(self) == *old(self),
            r == false,
    {
        false
    }

    fn set_priority(&mut self, _tid: usize, _priority: u8)
        ensures
            *final(self) == *old(self),
    {
    }
}

} // verus!
