//! From pointer positions to pointer deltas.
//!
//! The camera takes deltas; a windowing layer reports positions. The first
//! position after start has nothing to be compared with and gives no delta.

use vstd::prelude::*;
use crate::fixed::clamp_int;

verus! {

/// `value` limited to what a delta can hold.
pub open spec fn delta_of(value: int) -> int {
    clamp_int(value, i32::MIN as int, i32::MAX as int)
}

/// The pointer position last seen, if any.
#[derive(Clone, Copy, Debug)]
pub struct PointerTracker {
    pub last: Option<(i32, i32)>,
}

/// `value` limited to the range of `i32`.
fn limit(value: i64) -> (r: i32)
    ensures
        r == delta_of(value as int),
{
    if value < i32::MIN as i64 {
        i32::MIN
    } else if value > i32::MAX as i64 {
        i32::MAX
    } else {
        value as i32
    }
}

impl PointerTracker {
    /// A tracker that has seen no position yet.
    pub fn new() -> (tracker: PointerTracker)
        ensures
            tracker.last.is_none(),
    {
        PointerTracker { last: None }
    }

    /// Records the position `(x, y)` and returns how far the pointer has
    /// moved since the position before: to the right, and upwards, the
    /// y coordinate of a window growing downwards. The first position gives
    /// no movement.
    pub fn offsets(&mut self, x: i32, y: i32) -> (delta: (i32, i32))
        ensures
            final(self).last == Some((x, y)),
            old(self).last.is_none() ==> delta == (0i32, 0i32),
            old(self).last matches Some(before) ==> delta.0 == delta_of(x - before.0) && delta.1
                == delta_of(before.1 - y),
    {
        let delta: (i32, i32) = match self.last {
            None => (0, 0),
            Some(before) => (
                limit(x as i64 - before.0 as i64),
                limit(before.1 as i64 - y as i64),
            ),
        };
        self.last = Some((x, y));
        delta
    }
}

} // verus!
