//! Elapsed-time bookkeeping against a free-running millisecond counter.
//!
//! The counter itself is hardware: the board ticks it from a timer
//! interrupt. Every operation here takes the counter's current reading,
//! `now_ms`, as an argument.

use vstd::prelude::*;

verus! {

/// Measures the milliseconds that have passed since it was started or last reset.
pub struct UpTimer {
    initial_time: usize,
}

impl UpTimer {
    /// The counter reading at which this timer was started or last reset.
    pub closed spec fn start_ms(&self) -> usize {
        self.initial_time
    }

    /// Starts a timer at the counter reading `now_ms`.
    pub fn new(now_ms: usize) -> (timer: Self)
        ensures
            timer.start_ms() == now_ms,
    {
        Self { initial_time: now_ms }
    }

    /// Milliseconds elapsed between the timer's start and the reading `now_ms`.
    pub fn elapsed_ms(&self, now_ms: usize) -> (elapsed: usize)
        requires
            self.start_ms() <= now_ms,
        ensures
            elapsed == now_ms - self.start_ms(),
    {
        now_ms - self.initial_time
    }

    /// Restarts the timer at the counter reading `now_ms`.
    pub fn reset(&mut self, now_ms: usize)
        ensures
            final(self).start_ms() == now_ms,
    {
        self.initial_time = now_ms;
    }
}

} // verus!
