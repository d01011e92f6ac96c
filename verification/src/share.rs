//! The cadence of a share: when the next frame is due, how long to sleep
//! for it, and when to spin instead.

use vstd::prelude::*;

verus! {

/// The largest interval, in milliseconds, at which a share takes the
/// precision path.
pub const PRECISION_INTERVAL_MS: u64 = 10;

/// How long before the frame is due the sleep of the precision path ends,
/// in microseconds.
pub const SPIN_MARGIN_US: u64 = 1500;

/// The number of frames that the channel of a share holds.
pub const SHARE_CHANNEL_CAPACITY: usize = 100;

/// How long the manager waits for a transport to stop, in milliseconds.
pub const STOP_TIMEOUT_MS: u64 = 3000;

/// Whether a share at `interval_ms` takes the precision path.
pub fn uses_precision_path(interval_ms: u64) -> (r: bool)
    ensures
        r == (interval_ms <= PRECISION_INTERVAL_MS),
{
    interval_ms <= PRECISION_INTERVAL_MS
}

/// The sum of two times, or the largest time where the sum is past it.
pub open spec fn capped_sum(a: u64, b: u64) -> u64 {
    if a + b > u64::MAX {
        u64::MAX
    } else {
        (a + b) as u64
    }
}

/// An interval of milliseconds in microseconds, or the largest time where
/// that is past it.
pub open spec fn micros_of(interval_ms: u64) -> u64 {
    if interval_ms * 1000 > u64::MAX {
        u64::MAX
    } else {
        (interval_ms * 1000) as u64
    }
}

/// What a share does before it sends: sleep for `sleep_us`, then, on the
/// precision path, spin until the time `spin_until_us`.
#[derive(Debug, Clone, Copy, PartialEq, Eq, Structural)]
pub struct WaitPlan {
    pub sleep_us: u64,
    pub spin_until_us: Option<u64>,
}

/// The time of the next frame of a share, in microseconds of a clock that
/// does not go back.
#[derive(Debug, Clone, Copy, PartialEq, Eq, Structural)]
pub struct ShareClock {
    pub interval_us: u64,
    pub next_wake_us: u64,
    pub precision: bool,
}

/// The time of the frame after the one that was due at `due_us`, decided
/// at the time `now_us`: one interval later; or, where the share has
/// fallen more than two intervals behind, one interval from now.
pub open spec fn next_due(due_us: u64, interval_us: u64, now_us: u64) -> u64 {
    let next = capped_sum(due_us, interval_us);
    if now_us > next && now_us - next > 2 * interval_us {
        capped_sum(now_us, interval_us)
    } else {
        next
    }
}

/// The wait before the frame that is due at `due_us`, at the time `now_us`.
pub open spec fn wait_for(due_us: u64, precision: bool, now_us: u64) -> WaitPlan {
    if now_us >= due_us {
        WaitPlan { sleep_us: 0, spin_until_us: None }
    } else if precision {
        WaitPlan {
            sleep_us: if due_us - now_us > SPIN_MARGIN_US {
                (due_us - now_us - SPIN_MARGIN_US) as u64
            } else {
                0
            },
            spin_until_us: Some(due_us),
        }
    } else {
        WaitPlan { sleep_us: (due_us - now_us) as u64, spin_until_us: None }
    }
}

impl ShareClock {
    /// The clock of a share that starts at `now_us` and sends every
    /// `interval_ms` milliseconds: the first frame is due one interval
    /// from now.
    pub fn new(now_us: u64, interval_ms: u64) -> (r: ShareClock)
        ensures
            r.interval_us == micros_of(interval_ms),
            r.next_wake_us == capped_sum(now_us, micros_of(interval_ms)),
            r.precision == (interval_ms <= PRECISION_INTERVAL_MS),
    {
        let interval_us = if interval_ms > u64::MAX / 1000 {
            u64::MAX
        } else {
            interval_ms * 1000
        };
        ShareClock {
            interval_us,
            next_wake_us: now_us.saturating_add(interval_us),
            precision: interval_ms <= PRECISION_INTERVAL_MS,
        }
    }

    /// The wait before the next frame, at the time `now_us`: none where the
    /// frame is due; on the precision path a sleep that ends a margin
    /// before the frame is due, and a spin for the rest; and else a sleep
    /// until the frame is due.
    pub fn plan_wait(&self, now_us: u64) -> (r: WaitPlan)
        ensures
            r == wait_for(self.next_wake_us, self.precision, now_us),
    {
        if now_us >= self.next_wake_us {
            WaitPlan { sleep_us: 0, spin_until_us: None }
        } else {
            let remaining = self.next_wake_us - now_us;
            if self.precision {
                let sleep_us = if remaining > SPIN_MARGIN_US {
                    remaining - SPIN_MARGIN_US
                } else {
                    0
                };
                WaitPlan { sleep_us, spin_until_us: Some(self.next_wake_us) }
            } else {
                WaitPlan { sleep_us: remaining, spin_until_us: None }
            }
        }
    }

    /// Moves the clock to the frame after the next one, at the time
    /// `now_us`.
    pub fn advance(&mut self, now_us: u64)
        ensures
            final(self).interval_us == old(self).interval_us,
            final(self).precision == old(self).precision,
            final(self).next_wake_us == next_due(
                old(self).next_wake_us,
                old(self).interval_us,
                now_us,
            ),
    {
        let next = self.next_wake_us.saturating_add(self.interval_us);
        if now_us > next && self.interval_us <= u64::MAX / 2 && now_us - next > 2
            * self.interval_us {
            self.next_wake_us = now_us.saturating_add(self.interval_us);
        } else {
            self.next_wake_us = next;
        }
    }
}

/// The time at which the frame after `count` more frames is due, where the
/// share keeps up: `count` intervals after `first_us`.
pub open spec fn due_after(first_us: u64, interval_us: u64, nows: Seq<u64>) -> u64
    decreases nows.len(),
{
    if nows.len() == 0 {
        first_us
    } else {
        next_due(due_after(first_us, interval_us, nows.drop_last()), interval_us, nows.last())
    }
}

/// A share that is never more than two intervals behind does not drift:
/// after any number of frames the next one is due that many intervals
/// after the first, as long as that time can be told.
pub proof fn lemma_no_drift(first_us: u64, interval_us: u64, nows: Seq<u64>)
    requires
        first_us + nows.len() * interval_us <= u64::MAX,
        forall|k: int|
            0 <= k < nows.len() ==> (#[trigger] nows[k]) <= first_us + (k + 3) * interval_us,
    ensures
        due_after(first_us, interval_us, nows) == first_us + nows.len() * interval_us,
    decreases nows.len(),
{
    if nows.len() > 0 {
        let front = nows.drop_last();
        let n = front.len();
        assert(n * interval_us <= nows.len() * interval_us) by (nonlinear_arith)
            requires
                n <= nows.len(),
                interval_us >= 0,
        ;
        assert forall|k: int| 0 <= k < front.len() implies (#[trigger] front[k]) <= first_us + (k
            + 3) * interval_us by {
            assert(front[k] == nows[k]);
        }
        lemma_no_drift(first_us, interval_us, front);
        let due = due_after(first_us, interval_us, front);
        assert(nows.len() * interval_us == n * interval_us + interval_us) by (nonlinear_arith)
            requires
                nows.len() == n + 1,
        ;
        assert((n + 3) * interval_us == n * interval_us + 3 * interval_us) by (nonlinear_arith);
        assert(nows.last() == nows[n as int]);
    }
}

/// The users of the high-resolution timer of the platform.
#[derive(Debug, Clone, Copy, PartialEq, Eq, Structural)]
pub struct TimerResolution {
    pub users: usize,
}

impl TimerResolution {
    /// No share uses the timer.
    pub fn new() -> (r: TimerResolution)
        ensures
            r.users == 0,
    {
        TimerResolution { users: 0 }
    }

    /// One more share uses the timer. Tells whether the resolution has to
    /// be raised now, which is so for the first user.
    pub fn enable(&mut self) -> (r: bool)
        requires
            old(self).users < usize::MAX,
        ensures
            final(self).users == old(self).users + 1,
            r == (old(self).users == 0),
    {
        let first = self.users == 0;
        self.users = self.users + 1;
        first
    }

    /// One share less uses the timer. Tells whether the resolution has to
    /// be restored now, which is so for the last user. Without users
    /// nothing changes.
    pub fn disable(&mut self) -> (r: bool)
        ensures
            final(self).users == if old(self).users == 0 {
                0
            } else {
                old(self).users - 1
            },
            r == (old(self).users == 1),
    {
        if self.users == 0 {
            false
        } else {
            self.users = self.users - 1;
            self.users == 0
        }
    }
}

} // verus!
