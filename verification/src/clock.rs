//! From the times of frames to the time that passed between them.

use vstd::prelude::*;
use crate::fixed::clamp_int;

verus! {

/// The milliseconds from `earlier` to `later`, as far as one step can hold;
/// none if the clock has gone back.
pub open spec fn elapsed_between(earlier: int, later: int) -> int {
    clamp_int(later - earlier, 0, u32::MAX as int)
}

/// The time of the last frame, in milliseconds.
#[derive(Clone, Copy, Debug)]
pub struct FrameClock {
    pub last: u64,
}

impl FrameClock {
    /// A clock whose last frame was at `start`.
    pub fn new(start: u64) -> (clock: FrameClock)
        ensures
            clock.last == start,
    {
        FrameClock { last: start }
    }

    /// Records a frame at `now` and returns the milliseconds since the frame
    /// before.
    pub fn tick(&mut self, now: u64) -> (elapsed: u32)
        ensures
            final(self).last == now,
            elapsed == elapsed_between(old(self).last as int, now as int),
    {
        let elapsed: u32 = if now <= self.last {
            0
        } else if now - self.last > 0xffff_ffff {
            u32::MAX
        } else {
            (now - self.last) as u32
        };
        self.last = now;
        elapsed
    }
}

} // verus!
