//! Bookkeeping for periodic debug reports.

use vstd::prelude::*;

verus! {

/// Counts simulation frames and says on which of them a periodic report is
/// due: on every `period`-th frame since the counter was made or reset.
pub struct FrameCounter {
    elapsed: u32,
    period: u32,
}

impl FrameCounter {
    #[verifier::type_invariant]
    spec fn inv(self) -> bool {
        self.elapsed < self.period
    }

    /// Number of frames between two reports.
    pub closed spec fn period(self) -> nat {
        self.period as nat
    }

    /// Number of frames counted since the last report, or since the counter
    /// was made or reset if there was none.
    pub closed spec fn elapsed(self) -> nat {
        self.elapsed as nat
    }

    /// A counter that reports on every `period`-th frame.
    pub fn new(period: u32) -> (counter: FrameCounter)
        requires
            period > 0,
        ensures
            counter.period() == period,
            counter.elapsed() == 0,
    {
        FrameCounter { elapsed: 0, period }
    }

    /// Counts one frame and returns whether a report is due on it.
    pub fn tick(&mut self) -> (due: bool)
        ensures
            final(self).period() == old(self).period(),
            final(self).elapsed() == (old(self).elapsed() + 1) % old(self).period(),
            due == (final(self).elapsed() == 0),
            final(self).elapsed() < final(self).period(),
    {
        proof {
            use_type_invariant(&*self);
            let e = self.elapsed as int;
            let p = self.period as int;
            assert((e + 1) % p == if e + 1 == p { 0 } else { e + 1 }) by (nonlinear_arith)
                requires
                    0 <= e < p,
            ;
        }
        if self.elapsed + 1 == self.period {
            self.elapsed = 0;
            true
        } else {
            self.elapsed = self.elapsed + 1;
            false
        }
    }

    /// Starts counting anew, as at the start of a session.
    pub fn reset(&mut self)
        ensures
            final(self).period() == old(self).period(),
            final(self).elapsed() == 0,
    {
        proof {
            use_type_invariant(&*self);
        }
        self.elapsed = 0;
    }
}

} // verus!
