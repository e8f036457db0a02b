//! A frame counter: counts updates, and once at least a second of clock
//! time has passed, publishes the count seen in that second.
//!
//! The counter itself never reads a clock: the caller hands it the current
//! time as microseconds from any fixed starting point.

use vstd::prelude::*;

verus! {

/// The number of microseconds in one second.
pub const MICROS_PER_SECOND: u64 = 1000000;

/// Count frames per second.
pub struct FpsCounter {
    /// The count published for the last full second.
    pub current_count: usize,
    /// The number of updates seen since the count was last published.
    pub count_since_last_update: usize,
    /// The time of the last publication, in microseconds.
    pub last_update_micros: u64,
}

// Frame counter implementation
impl FpsCounter {
    /// Create a new frame counter starting at the given time.
    pub fn new(now_micros: u64) -> (r: FpsCounter)
        ensures
            r.current_count == 0,
            r.count_since_last_update == 0,
            r.last_update_micros == now_micros,
    {
        FpsCounter { current_count: 0, count_since_last_update: 0, last_update_micros: now_micros }
    }

    /// Get the current published count.
    pub fn count(&self) -> (r: usize)
        ensures
            r == self.current_count,
    {
        self.current_count
    }

    /// Record one frame at the given time. When at least one second has
    /// passed since the last publication, the count of frames seen in
    /// between is published and the counter starts a new second; the
    /// result says whether that happened.
    pub fn update(&mut self, now_micros: u64) -> (r: bool)
        requires
            old(self).count_since_last_update < usize::MAX,
            old(self).last_update_micros <= now_micros,
        ensures
            r == (now_micros - old(self).last_update_micros >= MICROS_PER_SECOND),
            r ==> final(self).current_count == old(self).count_since_last_update + 1
                && final(self).count_since_last_update == 0 && final(self).last_update_micros
                == now_micros,
            !r ==> final(self).current_count == old(self).current_count,
            !r ==> final(self).count_since_last_update == old(self).count_since_last_update + 1,
            !r ==> final(self).last_update_micros == old(self).last_update_micros,
    {
        self.count_since_last_update = self.count_since_last_update + 1;
        if now_micros - self.last_update_micros >= MICROS_PER_SECOND {
            self.current_count = self.count_since_last_update;
            self.count_since_last_update = 0;
            self.last_update_micros = now_micros;
            true
        } else {
            false
        }
    }
}

} // verus!
