use vstd::prelude::*;

verus! {

/// The pacing rule of the preview buffer: frames should leave one interval
/// apart. A frame that arrives early is held for the remainder of the
/// interval; one that arrives late widens the interval by half, and the
/// interval never shrinks back.
pub struct FramePacer {
    pub target_us: u64,
    pub current_us: u64,
}

impl FramePacer {
    /// A pacer at its target interval, in microseconds.
    pub fn new(target_us: u64) -> (r: FramePacer)
        ensures
            r.target_us == target_us,
            r.current_us == target_us,
    {
        FramePacer { target_us, current_us: target_us }
    }

    /// Decides what to do after a frame that took `elapsed_us`: how long to
    /// sleep before delivering it. A fast frame sleeps out the interval's
    /// remainder and leaves the interval alone; a slow frame is delivered at
    /// once and the interval backs off by half, saturating.
    pub fn on_frame(&mut self, elapsed_us: u64) -> (sleep: u64)
        ensures
            elapsed_us < old(self).current_us ==> sleep == old(self).current_us - elapsed_us
                && *final(self) == *old(self),
            elapsed_us >= old(self).current_us ==> sleep == 0 && final(self).target_us == old(
                self,
            ).target_us && final(self).current_us as int == (if (old(self).current_us as int) * 3
                / 2 > u64::MAX {
                u64::MAX as int
            } else {
                (old(self).current_us as int) * 3 / 2
            }),
    {
        if elapsed_us < self.current_us {
            self.current_us - elapsed_us
        } else {
            let widened: u128 = (self.current_us as u128) * 3 / 2;
            self.current_us = if widened > u64::MAX as u128 {
                u64::MAX
            } else {
                widened as u64
            };
            0
        }
    }
}

} // verus!
