//! Countdown and repeating-interval timers over whole milliseconds, used for
//! the weapon cooldown and the enemy redirect interval.

use vstd::prelude::*;

verus! {

/// Longest accepted timer duration, in milliseconds.
pub const MAX_DURATION_MS: u64 = 10_000_000;

/// Longest accepted simulation tick, in milliseconds.
pub const MAX_TICK_MS: u64 = 600_000;

/// Whether a timer stops at its duration or wraps and runs again.
#[derive(Clone, Copy, PartialEq, Eq, Structural, Debug)]
pub enum TimerMode {
    Once,
    Repeating,
}

/// An additive elapsed-time counter against a fixed duration.
///
/// `tick` advances the counter; reaching the duration marks the timer
/// finished for that tick. In repeating mode the overshoot wraps modulo the
/// duration so it carries into the next interval, and the finish mark fires
/// once per tick no matter how large the overshoot was.
#[derive(Clone, Copy, PartialEq, Eq, Structural, Debug)]
pub struct Timer {
    pub duration_ms: u64,
    pub elapsed_ms: u64,
    pub mode: TimerMode,
    /// Whether the most recent `tick` reached the duration.
    pub fired: bool,
}

impl Timer {
    /// Internal consistency: a positive, bounded duration never outrun by
    /// the elapsed counter.
    pub open spec fn wf(self) -> bool {
        &&& 0 < self.duration_ms <= MAX_DURATION_MS
        &&& self.elapsed_ms <= self.duration_ms
    }

    /// Whether the timer reports itself finished: permanently once reached
    /// for a one-shot timer, for the wrapping tick alone when repeating.
    pub open spec fn spec_finished(self) -> bool {
        match self.mode {
            TimerMode::Once => self.elapsed_ms >= self.duration_ms,
            TimerMode::Repeating => self.fired,
        }
    }

    /// The timer as it stands after advancing by `dt_ms`.
    pub open spec fn spec_ticked(self, dt_ms: int) -> Timer {
        let total = self.elapsed_ms + dt_ms;
        if total >= self.duration_ms {
            Timer {
                elapsed_ms: (match self.mode {
                    TimerMode::Repeating => total % (self.duration_ms as int),
                    TimerMode::Once => self.duration_ms as int,
                }) as u64,
                fired: true,
                ..self
            }
        } else {
            Timer { elapsed_ms: total as u64, fired: false, ..self }
        }
    }

    /// A fresh timer with nothing elapsed.
    pub fn new(duration_ms: u64, mode: TimerMode) -> (r: Timer)
        requires
            0 < duration_ms <= MAX_DURATION_MS,
        ensures
            r == (Timer { duration_ms, elapsed_ms: 0, mode, fired: false }),
            r.wf(),
            !r.spec_finished(),
    {
        Timer { duration_ms, elapsed_ms: 0, mode, fired: false }
    }

    /// Advance by `dt_ms`. Reaching the duration sets the finish mark; a
    /// repeating timer then wraps its overshoot modulo the duration, a
    /// one-shot timer saturates at the duration.
    pub fn tick(&mut self, dt_ms: u64)
        requires
            old(self).wf(),
            dt_ms <= MAX_TICK_MS,
        ensures
            *final(self) == old(self).spec_ticked(dt_ms as int),
            final(self).wf(),
            final(self).duration_ms == old(self).duration_ms,
            final(self).mode == old(self).mode,
            final(self).fired == (old(self).elapsed_ms + dt_ms >= old(self).duration_ms),
            old(self).elapsed_ms + dt_ms < old(self).duration_ms ==> final(self).elapsed_ms
                == old(self).elapsed_ms + dt_ms,
            old(self).elapsed_ms + dt_ms >= old(self).duration_ms ==> final(self).elapsed_ms == (
            match old(self).mode {
                TimerMode::Repeating => (old(self).elapsed_ms + dt_ms) as u64 % old(
                    self,
                ).duration_ms,
                TimerMode::Once => old(self).duration_ms,
            }),
    {
        let total: u64 = self.elapsed_ms + dt_ms;
        if total >= self.duration_ms {
            self.fired = true;
            match self.mode {
                TimerMode::Repeating => {
                    self.elapsed_ms = total % self.duration_ms;
                },
                TimerMode::Once => {
                    self.elapsed_ms = self.duration_ms;
                },
            }
        } else {
            self.fired = false;
            self.elapsed_ms = total;
        }
    }

    /// Whether the timer is finished, as `spec_finished` says.
    pub fn finished(&self) -> (r: bool)
        ensures
            r == self.spec_finished(),
    {
        match self.mode {
            TimerMode::Once => self.elapsed_ms >= self.duration_ms,
            TimerMode::Repeating => self.fired,
        }
    }

    /// Zero the elapsed counter and clear the finish mark.
    pub fn reset(&mut self)
        ensures
            *final(self) == (Timer {
                elapsed_ms: 0,
                fired: false,
                ..*old(self)
            }),
            old(self).wf() ==> final(self).wf(),
            old(self).duration_ms > 0 ==> !final(self).spec_finished(),
    {
        self.elapsed_ms = 0;
        self.fired = false;
    }
}

} // verus!
