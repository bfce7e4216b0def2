//! Mix delays of a Poisson process.
//!
//! A relay holds each packet for a random time drawn from an exponential
//! distribution. Across many packets that makes a Poisson process of arrivals
//! at the next hop, which breaks the correlation between a packet entering and
//! leaving the mix.

use crate::clock::{duration_nanos, NANOS_PER_SEC};
use std::time::Duration;
use vstd::prelude::*;

verus! {

/// How many times its mean a delay may last.
pub const MAX_MEANS: u64 = 100;

/// Sampler of exponential delays.
#[derive(Debug, Clone, Copy)]
pub struct PoissonScheduler {
    mean_micros: u64,
}

/// The delay for a draw of `sampled` nanoseconds around a mean: the draw
/// itself, cut off at a hundred times the mean; always zero for a mean of
/// zero.
pub open spec fn clamped_delay(mean_micros: nat, sampled: nat) -> nat {
    let longest = MAX_MEANS as nat * mean_micros * 1_000;
    if sampled <= longest {
        sampled
    } else {
        longest
    }
}

impl PoissonScheduler {
    /// The mean in microseconds.
    pub closed spec fn mean(self) -> nat {
        self.mean_micros as nat
    }

    /// A scheduler whose mean delay is `mean_delay_micros` microseconds. Zero
    /// disables it: every delay is then zero.
    pub fn new(mean_delay_micros: u64) -> (scheduler: PoissonScheduler)
        ensures
            scheduler.mean() == mean_delay_micros,
    {
        PoissonScheduler { mean_micros: mean_delay_micros }
    }

    /// The delay for one draw from the exponential distribution with this
    /// mean. Outliers beyond a hundred means are cut off, which bounds how
    /// much memory held packets take.
    pub fn next_delay(&self, sampled: Duration) -> (delay: Duration)
        ensures
            duration_nanos(delay) == clamped_delay(self.mean(), duration_nanos(sampled)),
    {
        let longest: u128 = self.mean_micros as u128 * 100_000;
        if sampled.as_nanos() <= longest {
            return sampled;
        }
        let secs: u64 = (longest / NANOS_PER_SEC) as u64;
        let nanos: u32 = (longest % NANOS_PER_SEC) as u32;
        Duration::new(secs, nanos)
    }

    /// The mean delay in microseconds.
    pub fn mean_delay_micros(&self) -> (micros: u64)
        ensures
            micros == self.mean(),
    {
        self.mean_micros
    }
}

/// No delay is longer than a hundred times the mean, and a mean of zero delays
/// nothing.
pub proof fn delays_are_bounded(mean_micros: nat, sampled: nat)
    ensures
        clamped_delay(mean_micros, sampled) <= MAX_MEANS * mean_micros * 1_000,
        clamped_delay(mean_micros, sampled) <= sampled,
        mean_micros == 0 ==> clamped_delay(mean_micros, sampled) == 0,
{
}

/// A delay is its draw, cut off at a hundred times the mean, and the mean is the
/// one that was set.
pub proof fn a_delay_is_its_draw(
    mean_micros: u64,
    scheduler: PoissonScheduler,
    told: u64,
    sampled: Duration,
    delay: Duration,
)
    requires
        call_ensures(PoissonScheduler::new, (mean_micros,), scheduler),
        call_ensures(PoissonScheduler::mean_delay_micros, (&scheduler,), told),
        call_ensures(PoissonScheduler::next_delay, (&scheduler, sampled), delay),
    ensures
        told == mean_micros,
        duration_nanos(sampled) <= mean_micros * 100_000 ==> duration_nanos(delay)
            == duration_nanos(sampled),
        duration_nanos(sampled) > mean_micros * 100_000 ==> duration_nanos(delay) == mean_micros
            * 100_000,
{
    assert(scheduler.mean() == mean_micros);
    assert(mean_micros * 100_000 == MAX_MEANS as nat * scheduler.mean() * 1_000)
        by (nonlinear_arith)
        requires
            scheduler.mean() == mean_micros,
            MAX_MEANS == 100,
    ;
}

} // verus!
