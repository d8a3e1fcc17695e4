//! Repeated sampler: one score per candidate is the sum of a fixed number of
//! independently measured round-trip latencies, in nanoseconds.

use vstd::prelude::*;

verus! {

/// Number of latency samples aggregated into one candidate score.
pub const TRIALS: usize = 5;

/// Sum of a sequence of latency samples.
pub open spec fn sum_of(s: Seq<u64>) -> int
    decreases s.len(),
{
    if s.len() == 0 {
        0
    } else {
        sum_of(s.drop_last()) + s.last()
    }
}

/// A sum of samples is bounded by the count times the largest sample value,
/// so the aggregate of any bounded number of samples fits a wide integer.
pub proof fn lemma_sum_bound(s: Seq<u64>)
    ensures
        0 <= sum_of(s) <= s.len() * 0xffff_ffff_ffff_ffff,
    decreases s.len(),
{
    if s.len() > 0 {
        lemma_sum_bound(s.drop_last());
    }
}

/// Collects latency samples for one candidate until the fixed trial count is
/// reached, then reports their sum as the candidate's score.
pub struct RepeatedSampler {
    samples: Vec<u64>,
}

impl RepeatedSampler {
    /// Samples recorded so far.
    pub closed spec fn samples(self) -> Seq<u64> {
        self.samples@
    }

    /// A sampler with no samples recorded.
    pub fn new() -> (s: Self)
        ensures
            s.samples() == Seq::<u64>::empty(),
    {
        RepeatedSampler { samples: Vec::new() }
    }

    /// True until exactly `TRIALS` samples have been recorded.
    pub fn needs_more(&self) -> (r: bool)
        ensures
            r == (self.samples().len() < TRIALS),
    {
        self.samples.len() < TRIALS
    }

    /// Records one latency sample.
    pub fn record(&mut self, sample: u64)
        requires
            old(self).samples().len() < TRIALS,
        ensures
            final(self).samples() == old(self).samples().push(sample),
    {
        self.samples.push(sample);
    }

    /// The candidate's score: the sum of exactly `TRIALS` samples.
    pub fn score(&self) -> (total: u128)
        requires
            self.samples().len() == TRIALS,
        ensures
            total == sum_of(self.samples()),
    {
        let mut total: u128 = 0;
        let mut i: usize = 0;
        while i < self.samples.len()
            invariant
                i <= self.samples@.len(),
                self.samples@.len() == TRIALS,
                total == sum_of(self.samples@.take(i as int)),
        decreases self.samples@.len() - i,
        {
            proof {
                lemma_sum_bound(self.samples@.take(i as int));
                assert(self.samples@.take(i + 1).drop_last() =~= self.samples@.take(i as int));
                assert(self.samples@.take(i + 1).last() == self.samples@[i as int]);
            }
            total = total + self.samples[i] as u128;
            i = i + 1;
        }
        assert(self.samples@.take(self.samples@.len() as int) =~= self.samples@);
        total
    }
}

} // verus!
