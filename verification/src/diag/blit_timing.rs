//! How long the screen updates take: a count, a sum and a maximum, reported every so often.

use vstd::prelude::*;

verus! {

/// Updates to a report.
pub const REPORT_EVERY: u64 = 16;

/// The updates since the last report.
#[derive(Clone, Copy, PartialEq, Eq, Structural)]
pub struct BlitTimer {
    pub count: u64,
    pub total_us: u64,
    pub max_us: u64,
}

/// A report.
#[derive(Clone, Copy, PartialEq, Eq, Structural, Debug)]
pub struct BlitReport {
    pub n: u64,
    pub total_us: u64,
    pub avg_us: u64,
    pub max_us: u64,
}

/// The timer with one more update of `dur` microseconds.
pub open spec fn with_update(t: BlitTimer, dur: u64) -> BlitTimer {
    BlitTimer {
        count: (t.count + 1) as u64,
        total_us: t.total_us.wrapping_add(dur),
        max_us: if dur > t.max_us {
            dur
        } else {
            t.max_us
        },
    }
}

/// An update counts once, adds its time to the sum, and is the longest where it is longer than all
/// before it.
pub proof fn updates_add_up(t: BlitTimer, dur: u64)
    requires
        t.count < 16,
        t.total_us + dur <= u64::MAX,
    ensures
        with_update(t, dur).count == t.count + 1,
        with_update(t, dur).total_us == t.total_us + dur,
        with_update(t, dur).max_us >= dur,
        with_update(t, dur).max_us >= t.max_us,
        with_update(t, dur).max_us == dur || with_update(t, dur).max_us == t.max_us,
{
}

impl BlitTimer {
    pub open spec fn wf(self) -> bool {
        self.count < REPORT_EVERY
    }

    /// No update yet.
    pub fn new() -> (t: Self)
        ensures
            t.wf(),
            t == (BlitTimer { count: 0, total_us: 0, max_us: 0 }),
    {
        BlitTimer { count: 0, total_us: 0, max_us: 0 }
    }

    /// Counts an update from `t0_us` to `now_us`. The sixteenth is reported, and the count
    /// starts over.
    pub fn record_since(&mut self, t0_us: u64, now_us: u64) -> (r: Option<BlitReport>)
        requires
            old(self).wf(),
        ensures
            final(self).wf(),
            ({
                let t = with_update(*old(self), now_us.wrapping_sub(t0_us));
                if t.count < REPORT_EVERY {
                    r is None && *final(self) == t
                } else {
                    &&& r == Some(
                        BlitReport {
                            n: t.count,
                            total_us: t.total_us,
                            avg_us: t.total_us / 16,
                            max_us: t.max_us,
                        },
                    )
                    &&& *final(self) == (BlitTimer { count: 0, total_us: 0, max_us: 0 })
                }
            }),
    {
        let dur: u64 = now_us.wrapping_sub(t0_us);
        let n: u64 = self.count + 1;
        let total: u64 = self.total_us.wrapping_add(dur);
        self.count = n;
        self.total_us = total;
        if dur > self.max_us {
            self.max_us = dur;
        }
        if n >= REPORT_EVERY {
            let max: u64 = self.max_us;
            self.max_us = 0;
            self.count = 0;
            self.total_us = 0;
            return Some(BlitReport { n, total_us: total, avg_us: total / n, max_us: max });
        }
        None
    }
}

} // verus!
