//! Morris-style approximate counter.
//!
//! A single small "scale" stands in for the running count: each observed
//! event raises the scale with probability `2^-scale` (pure doubling), and
//! the count is reconstructed on demand as `2^scale - 1`.  The randomized
//! draw is separated from the deterministic acceptance step, so the step
//! itself is specified exactly for every possible draw.

use vstd::prelude::*;

verus! {

use vstd::arithmetic::power2::pow2;
use vstd::bits::lemma_u64_shl_is_mul;

/// The scale saturates here: the reconstructed estimate `2^scale - 1` at
/// this scale is already the largest value a 64-bit count can hold, so
/// further increments are refused rather than allowed to overflow.
pub const MAX_SCALE: u32 = 64;

/// Whether an increment at `scale` is accepted for a drawn 64-bit value:
/// always at scale zero, never once saturated, and otherwise exactly when
/// the draw falls below `2^(64 - scale)` — which a uniform draw does with
/// probability `2^-scale`.
pub open spec fn spec_accept(scale: u32, draw: u64) -> bool {
    if scale == 0 {
        true
    } else if scale >= MAX_SCALE {
        false
    } else {
        (draw as nat) < pow2((64 - scale) as nat)
    }
}

/// The scale after one observed event, given the drawn value.
pub open spec fn spec_step(scale: u32, draw: u64) -> u32 {
    if spec_accept(scale, draw) {
        (scale + 1) as u32
    } else {
        scale
    }
}

/// The count reconstructed from a scale: `2^scale - 1`, clamped at the
/// largest 64-bit value.
pub open spec fn spec_count_estimate(scale: u32) -> nat {
    if scale <= 64 {
        (pow2(scale as nat) - 1) as nat
    } else {
        (pow2(64) - 1) as nat
    }
}

/// The reconstructed count never decreases as the scale grows.
pub proof fn lemma_estimate_monotone(s1: u32, s2: u32)
    requires
        s1 <= s2,
    ensures
        spec_count_estimate(s1) <= spec_count_estimate(s2),
{
    let e1: nat = if s1 <= 64 {
        s1 as nat
    } else {
        64
    };
    let e2: nat = if s2 <= 64 {
        s2 as nat
    } else {
        64
    };
    vstd::arithmetic::power2::lemma_pow2_pos(e1);
    vstd::arithmetic::power2::lemma_pow2_pos(e2);
    vstd::arithmetic::power2::lemma_pow2(e1);
    vstd::arithmetic::power2::lemma_pow2(e2);
    vstd::arithmetic::power::lemma_pow_increases(2, e1, e2);
}

/// Relies on `rand::random::<u64>()`: one 64-bit value drawn from the
/// thread-local generator.  Nothing is assumed about which value comes
/// back; every caller must cope with every outcome.
#[verifier::external_body]
fn draw_random_u64() -> u64 {
    rand::random::<u64>()
}

pub struct ApprxCounter {
    count: u32,
}

impl ApprxCounter {
    /// The scale: how many increments have been accepted so far.
    pub closed spec fn spec_scale(self) -> u32 {
        self.count
    }

    /// Well-formedness: the scale never passes its saturation point.
    pub open spec fn wf(self) -> bool {
        self.spec_scale() <= MAX_SCALE
    }

    /// A fresh counter at scale zero; its estimate is zero.
    pub fn new() -> (r: Self)
        ensures
            r.wf(),
            r.spec_scale() == 0,
    {
        ApprxCounter { count: 0 }
    }

    /// The current scale.
    pub fn scale(&self) -> (r: u32)
        ensures
            r == self.spec_scale(),
    {
        self.count
    }

    /// The deterministic half of an increment: raises the scale by one
    /// exactly when the drawn value is accepted at the current scale, and
    /// never decreases it.  Feeding chosen draws exercises the acceptance
    /// rule without randomness.
    pub fn increment_with(&mut self, draw: u64)
        requires
            old(self).wf(),
        ensures
            final(self).wf(),
            final(self).spec_scale() == spec_step(old(self).spec_scale(), draw),
            old(self).spec_scale() <= final(self).spec_scale(),
    {
        if self.count == 0 {
            self.count = 1;
        } else if self.count < 64 {
            proof {
                vstd::bits::lemma_u64_pow2_no_overflow((64 - self.count) as nat);
                lemma_u64_shl_is_mul(1u64, (64 - self.count) as u64);
            }
            let threshold = 1u64 << ((64 - self.count) as u64);
            if draw < threshold {
                self.count = self.count + 1;
            }
        }
    }

    /// Counts one observed event: draws a random value and applies the
    /// acceptance step.  Whatever is drawn, the scale never decreases,
    /// grows by at most one, always grows from zero, and stays put once
    /// saturated.
    pub fn increment(&mut self)
        requires
            old(self).wf(),
        ensures
            final(self).wf(),
            old(self).spec_scale() <= final(self).spec_scale() <= old(self).spec_scale() + 1,
            old(self).spec_scale() == 0 ==> final(self).spec_scale() == 1,
            old(self).spec_scale() >= MAX_SCALE ==> final(self).spec_scale() == old(
                self,
            ).spec_scale(),
    {
        let draw = draw_random_u64();
        self.increment_with(draw);
    }

    /// The approximate number of events counted so far: `2^scale - 1`,
    /// clamped at the largest 64-bit value.  A pure read: the counter is
    /// not changed.
    pub fn estimate(&self) -> (r: u64)
        requires
            self.wf(),
        ensures
            r == spec_count_estimate(self.spec_scale()),
    {
        if self.count >= 64 {
            proof {
                vstd::arithmetic::power2::lemma2_to64_rest();
            }
            u64::MAX
        } else {
            proof {
                vstd::bits::lemma_u64_pow2_no_overflow(self.count as nat);
                lemma_u64_shl_is_mul(1u64, self.count as u64);
            }
            (1u64 << (self.count as u64)) - 1
        }
    }
}

} // verus!
