//! A bare-metal cooperative task runtime: a timing-wheel deadline scheduler
//! reconciled against a single hardware countdown timer, a global runnable
//! task queue, and a pool that multiplexes a bounded set of thread slots onto
//! cooperative futures through an injected scheduling policy.
//!
//! Hardware effects (the timer interrupt line, the monotonic clock, console
//! output) are modelled as explicit state handed in by the caller: the clock
//! is a plain tick argument, the timer line is a [`sbi::HardwareTimer`]
//! value, and console output is a character sink. An unverified shell owns
//! the real devices and forwards their values.
use vstd::prelude::*;

pub mod console;
pub mod executor;
pub mod sbi;
pub mod scheduler;
pub mod timer;
pub mod waker_pool;

verus! {

/// Result of polling a suspendable computation: either it has finished, or it
/// has registered interest in a later wake and suspended.
#[derive(Clone, Copy, PartialEq, Eq, Structural, Debug)]
pub enum PollResult {
    Ready,
    Pending,
}

} // verus!
