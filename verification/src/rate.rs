//! The rate at which blocks arrive, measured over the most recent arrivals.
//!
//! Times are in milliseconds. Rates are whole numbers of thousandths of a
//! block per second.

use vstd::prelude::*;
use std::collections::VecDeque;

verus! {

/// The number of most recent arrivals over which the rate is taken.
pub const RATE_WINDOW: usize = 100;

/// The rate that is assumed before two blocks have arrived: one block per
/// second.
pub const DEFAULT_RATE: u64 = 1_000;

/// The last `RATE_WINDOW` of the arrival times.
pub open spec fn recent_times(times: Seq<i64>) -> Seq<i64> {
    if times.len() > RATE_WINDOW {
        times.skip(times.len() - RATE_WINDOW)
    } else {
        times
    }
}

/// The block rate that these arrival times show: the arrivals after the
/// first, divided by the time from the first to the last. Where the clock
/// did not advance between the two, the rate is zero.
pub open spec fn block_rate(times: Seq<i64>) -> int {
    if times.len() <= 1 {
        DEFAULT_RATE as int
    } else if times.last() - times[0] <= 0 {
        0
    } else {
        (times.len() - 1) * 1_000_000 / (times.last() - times[0])
    }
}

/// The arrival times of the most recent blocks, oldest first.
pub struct RateMeter {
    times: VecDeque<i64>,
}

impl View for RateMeter {
    type V = Seq<i64>;

    closed spec fn view(&self) -> Seq<i64> {
        self.times@
    }
}

impl RateMeter {
    /// The invariant: no more arrivals are kept than the window takes.
    pub open spec fn wf(&self) -> bool {
        self@.len() <= RATE_WINDOW
    }

    /// A meter that has seen no block.
    pub fn new() -> (meter: Self)
        ensures
            meter.wf(),
            meter@ == Seq::<i64>::empty(),
    {
        RateMeter { times: VecDeque::new() }
    }

    /// Records the arrival of a block at `now_ms`.
    pub fn record(&mut self, now_ms: i64)
        ensures
            final(self).wf(),
            final(self)@ == recent_times(old(self)@.push(now_ms)),
    {
        self.times.push_back(now_ms);
        let ghost all = self.times@;
        while self.times.len() > RATE_WINDOW
            invariant
                self.times@.len() <= all.len(),
                all.len() > RATE_WINDOW ==> self.times@.len() >= RATE_WINDOW,
                all.len() <= RATE_WINDOW ==> self.times@.len() == all.len(),
                self.times@ == all.skip(all.len() - self.times@.len()),
            decreases self.times@.len(),
        {
            let _ = self.times.pop_front();
        }
        assert(self.times@ =~= recent_times(all));
    }

    /// The block rate over the recorded arrivals.
    pub fn bps(&self) -> (rate: u64)
        requires
            self.wf(),
        ensures
            rate == block_rate(self@),
            rate <= 99_000_000,
    {
        let n = self.times.len();
        if n <= 1 {
            return DEFAULT_RATE;
        }
        let span: i128 = (self.times[n - 1] as i128) - (self.times[0] as i128);
        if span <= 0 {
            return 0;
        }
        let arrivals: u128 = ((n - 1) as u128) * 1_000_000;
        assert(arrivals / (span as u128) <= arrivals) by (nonlinear_arith)
            requires
                span >= 1,
                arrivals >= 0,
        ;
        (arrivals / (span as u128)) as u64
    }
}

} // verus!
