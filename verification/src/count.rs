//! Sample counters: how many observations have been folded into a running
//! mean, and into a pair of running means that advance together.

use vstd::prelude::*;

verus! {

/// The number of samples that one running mean has taken in.
#[derive(Debug)]
pub struct SampleCount {
    n: u64,
}

impl View for SampleCount {
    type V = nat;

    closed spec fn view(&self) -> nat {
        self.n as nat
    }
}

impl Clone for SampleCount {
    fn clone(&self) -> (c: SampleCount)
        ensures
            c@ == self@,
    {
        SampleCount { n: self.n }
    }
}

impl SampleCount {
    /// A counter that has seen no sample.
    pub fn new() -> (c: SampleCount)
        ensures
            c@ == 0,
    {
        SampleCount { n: 0 }
    }

    /// Counts one more sample.
    pub fn increment(&mut self)
        requires
            old(self)@ < u64::MAX,
        ensures
            final(self)@ == old(self)@ + 1,
        no_unwind
    {
        self.n = self.n + 1;
    }

    /// The number of samples counted so far.
    pub fn len(&self) -> (n: u64)
        ensures
            n == self@,
    {
        self.n
    }

    /// Whether no sample has been counted yet.
    pub fn is_empty(&self) -> (b: bool)
        ensures
            b <==> self@ == 0,
    {
        self.n == 0
    }
}

/// The divisor of an unbiased second-moment estimate over `n` samples:
/// `n - 1`, which exists once there are two samples.
pub open spec fn bessel_divisor(n: nat) -> Option<nat> {
    if n < 2 {
        None
    } else {
        Some((n - 1) as nat)
    }
}

/// Counts one more sample on each of two counters.
fn increment_both(x: &mut SampleCount, y: &mut SampleCount)
    requires
        old(x)@ < u64::MAX,
        old(y)@ < u64::MAX,
    ensures
        final(x)@ == old(x)@ + 1,
        final(y)@ == old(y)@ + 1,
    no_unwind
{
    x.increment();
    y.increment();
}

/// The counters of two running means, one per variable of a paired stream,
/// which take in every sample together.
#[derive(Debug)]
pub struct PairedCount {
    x: SampleCount,
    y: SampleCount,
}

impl View for PairedCount {
    type V = nat;

    closed spec fn view(&self) -> nat {
        self.x@
    }
}

impl Clone for PairedCount {
    fn clone(&self) -> (c: PairedCount)
        ensures
            c@ == self@,
    {
        proof {
            use_type_invariant(self);
        }
        PairedCount { x: self.x.clone(), y: self.y.clone() }
    }
}

impl PairedCount {
    #[verifier::type_invariant]
    spec fn in_lockstep(self) -> bool {
        self.x@ == self.y@
    }

    /// A pair of counters that have seen no sample.
    pub fn new() -> (c: PairedCount)
        ensures
            c@ == 0,
    {
        PairedCount { x: SampleCount::new(), y: SampleCount::new() }
    }

    /// Counts one more sample on both variables.
    pub fn increment(&mut self)
        requires
            old(self)@ < u64::MAX,
        ensures
            final(self)@ == old(self)@ + 1,
    {
        proof {
            use_type_invariant(&*self);
        }
        increment_both(&mut self.x, &mut self.y);
    }

    /// Whether no sample has been counted yet.
    pub fn is_empty(&self) -> (b: bool)
        ensures
            b <==> self@ == 0,
    {
        proof {
            use_type_invariant(self);
        }
        self.x.is_empty() || self.y.is_empty()
    }

    /// The number of samples counted so far.
    pub fn len(&self) -> (n: u64)
        ensures
            n == self@,
    {
        self.x.len()
    }

    /// The divisor for the unbiased variance and covariance estimates, or
    /// `None` while fewer than two samples have been counted.
    pub fn degrees_of_freedom(&self) -> (d: Option<u64>)
        ensures
            d.is_some() <==> self@ >= 2,
            d matches Some(k) ==> k == self@ - 1,
            bessel_divisor(self@) == match d {
                Some(k) => Some(k as nat),
                None => None,
            },
    {
        let n: u64 = self.x.len();
        if n < 2 {
            None
        } else {
            Some(n - 1)
        }
    }
}

} // verus!
