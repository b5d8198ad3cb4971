use vstd::prelude::*;

verus! {

/// Nanoseconds in a second, and the fixed rate of timer/present ticks.
pub const NANOS_PER_SECOND: u64 = 1_000_000_000;
pub const FRAME_RATE: u64 = 60;

/// Decides, from a monotone clock the host reads, when the two periodic
/// actions are due: instruction cycles at a configurable rate and
/// timer-decrement/present ticks at the fixed frame rate. Neither action
/// blocks; the host calls `tick` in its loop and performs what is due.
pub struct TimingScheduler {
    /// Nanoseconds between instruction cycles.
    pub cycle_period: u64,
    /// Nanoseconds between frame ticks.
    pub frame_period: u64,
    /// When the last instruction cycle was granted.
    pub last_cycle: u64,
    /// When the last frame tick was granted.
    pub last_frame: u64,
}

impl TimingScheduler {
    /// A scheduler for `speed` instruction cycles per second, with both
    /// actions last granted at time `now`.
    pub fn new(speed: u32, now: u64) -> (s: TimingScheduler)
        requires
            speed >= 1,
        ensures
            s.cycle_period == NANOS_PER_SECOND / speed as u64,
            s.frame_period == NANOS_PER_SECOND / FRAME_RATE,
            s.last_cycle == now,
            s.last_frame == now,
    {
        TimingScheduler {
            cycle_period: NANOS_PER_SECOND / speed as u64,
            frame_period: NANOS_PER_SECOND / FRAME_RATE,
            last_cycle: now,
            last_frame: now,
        }
    }

    /// Reports which actions are due at time `now`: an instruction cycle
    /// when a full cycle period elapsed, a frame tick when a full frame
    /// period elapsed. Each granted action resets its own clock to `now`
    /// and leaves the other untouched, so the two rates stay independent.
    pub fn tick(&mut self, now: u64) -> (due: (bool, bool))
        requires
            now >= old(self).last_cycle,
            now >= old(self).last_frame,
        ensures
            due.0 == (now - old(self).last_cycle >= old(self).cycle_period),
            due.1 == (now - old(self).last_frame >= old(self).frame_period),
            final(self).last_cycle == (if due.0 {
                now
            } else {
                old(self).last_cycle
            }),
            final(self).last_frame == (if due.1 {
                now
            } else {
                old(self).last_frame
            }),
            final(self).cycle_period == old(self).cycle_period,
            final(self).frame_period == old(self).frame_period,
    {
        let run_cycle = now - self.last_cycle >= self.cycle_period;
        if run_cycle {
            self.last_cycle = now;
        }
        let run_frame = now - self.last_frame >= self.frame_period;
        if run_frame {
            self.last_frame = now;
        }
        (run_cycle, run_frame)
    }
}

} // verus!
