//! Model of the supervisor timer interface: the one hardware countdown-timer
//! resource that the runtime programs.
//!
//! The real device is written through a privileged call; here it is a plain
//! value that records the armed deadline, so that every reprogramming
//! decision the runtime makes is visible in contracts. The unverified shell
//! owns the real timer line and forwards each programmed deadline to it.
use vstd::prelude::*;

verus! {

/// The deadline value that stands for "no pending event": the interrupt is
/// effectively disarmed, since the clock never reaches it.
pub const INFINITY_TO: u64 = 0xffff_ffff_ffff_ffff;

/// The one hardware countdown timer, reduced to the deadline it is armed
/// with. A fresh timer is disarmed (armed at [`INFINITY_TO`]).
pub struct HardwareTimer {
    pub deadline: u64,
}

impl HardwareTimer {
    /// A timer line that has not been programmed yet: disarmed.
    pub fn new() -> (hw: HardwareTimer)
        ensures
            hw.deadline == INFINITY_TO,
    {
        HardwareTimer { deadline: INFINITY_TO }
    }
}

/// Arms the timer interrupt to fire once the monotonic clock reaches
/// `stime_value`.
pub fn set_timer(hw: &mut HardwareTimer, stime_value: u64)
    ensures
        final(hw).deadline == stime_value,
{
    hw.deadline = stime_value;
}

} // verus!
