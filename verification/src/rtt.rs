//! The estimate of the round-trip time, kept by a smoothed mean and a mean
//! deviation. Times are counted in microseconds.

use vstd::prelude::*;

verus! {

/// No time that enters the estimate counts as longer than this.
pub const MAX_RTT: u64 = 1152921504606846976;

/// The resolution of the timers.
pub const GRANULARITY: u64 = 1000;

/// A time cut down to the longest that counts.
pub open spec fn clamp_rtt(t: u64) -> u64 {
    if t <= MAX_RTT {
        t
    } else {
        MAX_RTT
    }
}

fn clamp(t: u64) -> (c: u64)
    ensures
        c == clamp_rtt(t),
{
    if t <= MAX_RTT {
        t
    } else {
        MAX_RTT
    }
}

/// What is known of the round-trip time of a path.
#[derive(Clone, Copy, Debug, PartialEq, Eq, Structural)]
pub struct RttEstimator {
    /// The sample taken last.
    pub latest: u64,
    /// The smoothed mean of the samples.
    pub smoothed: u64,
    /// The mean deviation of the samples.
    pub var: u64,
    /// The shortest sample taken.
    pub min: u64,
    /// Whether any sample has been taken.
    pub sampled: bool,
}

impl RttEstimator {
    pub open spec fn wf(self) -> bool {
        &&& self.latest <= MAX_RTT
        &&& self.smoothed <= MAX_RTT
        &&& self.var <= MAX_RTT
        &&& self.min <= MAX_RTT
    }

    /// The estimate before any sample: the assumed time, with half of it as
    /// deviation.
    pub open spec fn initial(rtt: u64) -> RttEstimator {
        let r = clamp_rtt(rtt);
        RttEstimator { latest: r, smoothed: r, var: r / 2, min: r, sampled: false }
    }

    pub fn new(rtt: u64) -> (e: RttEstimator)
        ensures
            e == Self::initial(rtt),
            e.wf(),
    {
        let r: u64 = clamp(rtt);
        RttEstimator { latest: r, smoothed: r, var: r / 2, min: r, sampled: false }
    }

    /// The estimate after a sample. The first sample replaces what was
    /// assumed. A later one moves the mean by an eighth and the deviation by
    /// a quarter of the difference, after the delay that the peer told
    /// has been taken off, unless that would lead below the shortest sample.
    pub open spec fn after_sample(self, sample: u64, ack_delay: u64) -> RttEstimator {
        let s = clamp_rtt(sample);
        if !self.sampled {
            RttEstimator { latest: s, smoothed: s, var: s / 2, min: s, sampled: true }
        } else {
            let m = if s < self.min {
                s
            } else {
                self.min
            };
            let a = if s - m >= ack_delay {
                (s - ack_delay) as u64
            } else {
                s
            };
            let dev = if self.smoothed > a {
                self.smoothed - a
            } else {
                a - self.smoothed
            };
            RttEstimator {
                latest: s,
                smoothed: ((7 * self.smoothed + a) / 8) as u64,
                var: ((3 * self.var + dev) / 4) as u64,
                min: m,
                sampled: true,
            }
        }
    }

    /// Takes in a sample of the round-trip time.
    pub fn update(&mut self, sample: u64, ack_delay: u64)
        requires
            old(self).wf(),
        ensures
            final(self).wf(),
            *final(self) == old(self).after_sample(sample, ack_delay),
    {
        let s: u64 = clamp(sample);
        if !self.sampled {
            self.latest = s;
            self.smoothed = s;
            self.var = s / 2;
            self.min = s;
            self.sampled = true;
        } else {
            let m: u64 = if s < self.min { s } else { self.min };
            let a: u64 = if s - m >= ack_delay { s - ack_delay } else { s };
            let dev: u64 = if self.smoothed > a { self.smoothed - a } else { a - self.smoothed };
            self.latest = s;
            self.smoothed = (7 * self.smoothed + a) / 8;
            self.var = (3 * self.var + dev) / 4;
            self.min = m;
        }
    }

    /// The time after which an acknowledgment is overdue: the mean, four
    /// deviations, and the longest delay the peer may add.
    pub open spec fn spec_pto(&self, max_ack_delay: u64) -> u64 {
        let spread = if 4 * self.var > GRANULARITY {
            4 * self.var
        } else {
            GRANULARITY as int
        };
        (self.smoothed + spread + clamp_rtt(max_ack_delay)) as u64
    }

    #[verifier::when_used_as_spec(spec_pto)]
    pub fn pto(&self, max_ack_delay: u64) -> (t: u64)
        requires
            self.wf(),
        ensures
            t == self.spec_pto(max_ack_delay),
            t >= GRANULARITY,
    {
        let spread: u64 = if 4 * self.var > GRANULARITY { 4 * self.var } else { GRANULARITY };
        self.smoothed + spread + clamp(max_ack_delay)
    }

    /// The age beyond which an unacknowledged packet counts as lost: nine
    /// eighths of the larger of the mean and the latest sample, and the
    /// longest delay the peer may add.
    pub open spec fn spec_loss_delay(&self, max_ack_delay: u64) -> u64 {
        let larger = if self.smoothed > self.latest {
            self.smoothed
        } else {
            self.latest
        };
        let scaled = larger + larger / 8;
        let floor = if scaled > GRANULARITY {
            scaled
        } else {
            GRANULARITY as int
        };
        (floor + clamp_rtt(max_ack_delay)) as u64
    }

    #[verifier::when_used_as_spec(spec_loss_delay)]
    pub fn loss_delay(&self, max_ack_delay: u64) -> (t: u64)
        requires
            self.wf(),
        ensures
            t == self.spec_loss_delay(max_ack_delay),
            t >= GRANULARITY,
    {
        let larger: u64 = if self.smoothed > self.latest { self.smoothed } else { self.latest };
        let scaled: u64 = larger + larger / 8;
        let floor: u64 = if scaled > GRANULARITY { scaled } else { GRANULARITY };
        floor + clamp(max_ack_delay)
    }
}

/// A sample never moves the mean outside the span between the old mean and
/// the sample, and the shortest sample never grows.
pub proof fn lemma_sample_bounds(e: RttEstimator, sample: u64, ack_delay: u64)
    requires
        e.wf(),
        e.sampled,
    ensures
        e.after_sample(sample, ack_delay).wf(),
        e.after_sample(sample, ack_delay).min <= e.min,
        e.after_sample(sample, ack_delay).min <= clamp_rtt(sample),
        e.after_sample(sample, ack_delay).smoothed <= if e.smoothed > clamp_rtt(sample) {
            e.smoothed
        } else {
            clamp_rtt(sample)
        },
{
}

} // verus!
