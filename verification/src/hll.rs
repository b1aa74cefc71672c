//! HyperLogLog cardinality estimator.
//!
//! A fixed array of `2^precision` buckets records, per bucket, the largest
//! "rank" (position of the leftmost set bit, counted from the most
//! significant side) seen among the hashes routed to that bucket.  The
//! distinct-count estimate is a bias-corrected harmonic mean of the bucket
//! weights, computed in exact integer arithmetic.

use vstd::prelude::*;

verus! {

use vstd::arithmetic::power2::pow2;
use vstd::bits::lemma_u64_shl_is_mul;
use vstd::std_specs::bits::{u64_leading_zeros, axiom_u64_leading_zeros};
use vstd::wrapping::u64_specs;

/// Width of the hash values in bits.
pub const HASH_BITS: u16 = 64;

/// Largest accepted precision: the top `precision` bits of a hash pick the
/// bucket, so `2^precision` buckets (at most 64) are kept.
pub const MAX_PRECISION: u16 = 6;

/// First multiplier of the 64-bit avalanche mixer.
pub const MIX_MUL_1: u64 = 0xff51_afd7_ed55_8ccd;

/// Second multiplier of the 64-bit avalanche mixer.
pub const MIX_MUL_2: u64 = 0xc4ce_b9fe_1a85_ec53;

/// Numerator of the bias-correction constant 0.79402.
pub const ALPHA_NUM: u128 = 79402;

/// Denominator of the bias-correction constant 0.79402.
pub const ALPHA_DEN: u128 = 100000;

/// One xor-shift-multiply round of the mixer.
pub open spec fn spec_mix_round(z: u64, m: u64) -> u64 {
    u64_specs::wrapping_mul(z ^ (z >> 33), m)
}

/// The 64-bit hash of a key: a two-round multiplicative avalanche mixer
/// (the finalizer of a widespread 64-bit hash), deterministic in the key.
pub open spec fn spec_hash64(key: u64) -> u64 {
    let a = spec_mix_round(key, MIX_MUL_1);
    let b = spec_mix_round(a, MIX_MUL_2);
    b ^ (b >> 33)
}

/// Bucket selected by a hash: its top `p` bits.
pub open spec fn spec_bucket_index(h: u64, p: u16) -> u64
    recommends
        p <= MAX_PRECISION,
{
    if p == 0 {
        0
    } else {
        h >> ((HASH_BITS - p) as u64)
    }
}

/// Rank of a hash: position, counted from the most significant side and
/// starting at 1, of the first set bit among the low `64 - p` bits; an
/// all-zero remainder yields the largest possible rank, `64 - p`.
pub open spec fn spec_rank(h: u64, p: u16) -> u64
    recommends
        p <= MAX_PRECISION,
{
    let rem = h << (p as u64);
    if rem == 0 {
        (HASH_BITS - p) as u64
    } else {
        (u64_leading_zeros(rem) + 1) as u64
    }
}

/// Bucket state after one key is added: the key's bucket is raised to the
/// key's rank if the rank is larger; a degenerate (empty) state is kept.
pub open spec fn spec_add(b: Seq<u64>, p: u16, key: u64) -> Seq<u64>
    recommends
        p <= MAX_PRECISION,
{
    if b.len() == 0 {
        b
    } else {
        let h = spec_hash64(key);
        let i = spec_bucket_index(h, p) as int;
        let r = spec_rank(h, p);
        b.update(i, if b[i] < r { r } else { b[i] })
    }
}

/// Weight a bucket contributes to the harmonic mean: `2^(64 - bucket)`,
/// scaled so that the sum stays integral (a bucket of rank `r` contributes
/// `2^-r` of the unscaled mean; the whole sum is scaled by `2^64`).
pub open spec fn spec_weight(b: u64) -> nat {
    if b <= 64 {
        pow2((64 - b) as nat)
    } else {
        1
    }
}

/// Sum of the weights of all buckets.
pub open spec fn spec_weight_sum(b: Seq<u64>) -> nat
    decreases b.len(),
{
    if b.len() == 0 {
        0
    } else {
        spec_weight_sum(b.drop_last()) + spec_weight(b.last())
    }
}

/// Whether every bucket is still at its initial zero.
pub open spec fn spec_all_zero(b: Seq<u64>) -> bool {
    forall|i: int| 0 <= i < b.len() ==> (#[trigger] b[i]) == 0
}

/// The cardinality estimate of a bucket state: zero for a degenerate or
/// untouched state, otherwise the bias-corrected harmonic mean
/// `0.79402 * m^2 / (sum of 2^-bucket)` truncated to an integer, written
/// over integers by scaling numerator and weights by `2^64`.
pub open spec fn spec_estimate(b: Seq<u64>) -> nat {
    if b.len() == 0 || spec_all_zero(b) {
        0
    } else {
        ((ALPHA_NUM as nat) * b.len() * b.len() * pow2(64)) / ((ALPHA_DEN as nat)
            * spec_weight_sum(b))
    }
}

/// `pow2` is monotone.
proof fn lemma_pow2_le(e1: nat, e2: nat)
    requires
        e1 <= e2,
    ensures
        pow2(e1) <= pow2(e2),
{
    vstd::arithmetic::power2::lemma_pow2(e1);
    vstd::arithmetic::power2::lemma_pow2(e2);
    vstd::arithmetic::power::lemma_pow_increases(2, e1, e2);
}

/// A valid precision gives between 1 and 64 buckets.
proof fn lemma_bucket_count_le_64(p: u16)
    requires
        p <= MAX_PRECISION,
    ensures
        0 < pow2(p as nat) <= 64,
{
    vstd::arithmetic::power2::lemma2_to64();
    lemma_pow2_le(0, p as nat);
    lemma_pow2_le(p as nat, 6);
}

/// The bucket index fits the bucket array of a valid precision.
pub proof fn lemma_bucket_index_lt(h: u64, p: u16)
    requires
        p <= MAX_PRECISION,
    ensures
        spec_bucket_index(h, p) < pow2(p as nat),
{
    vstd::bits::lemma_u64_pow2_no_overflow(p as nat);
    lemma_u64_shl_is_mul(1u64, p as u64);
    vstd::arithmetic::power2::lemma2_to64();
    if p != 0 {
        let i = h >> ((64 - p) as u64);
        assert(i < (1u64 << (p as u64))) by (bit_vector)
            requires
                1 <= p <= 6,
                i == h >> ((64 - p) as u64),
        ;
    }
}

/// Each weight of a state with ranks in range is at least `2^p`, so the
/// weight sum is at least `len * 2^p`.
proof fn lemma_weight_sum_lower(b: Seq<u64>, p: u16)
    requires
        p <= MAX_PRECISION,
        forall|i: int| 0 <= i < b.len() ==> (#[trigger] b[i]) <= (HASH_BITS - p) as u64,
    ensures
        spec_weight_sum(b) >= b.len() * pow2(p as nat),
    decreases b.len(),
{
    if b.len() != 0 {
        let d = b.drop_last();
        lemma_weight_sum_lower(d, p);
        assert(spec_weight(b.last()) >= pow2(p as nat)) by {
            lemma_pow2_le(p as nat, (64 - b.last()) as nat);
        }
        let s = spec_weight_sum(d);
        let w = spec_weight(b.last());
        let q = pow2(p as nat);
        let n = b.len();
        assert(s + w >= n * q) by (nonlinear_arith)
            requires
                s >= (n - 1) * q,
                w >= q,
                n >= 1,
        ;
    }
}

/// Adding the same key twice, or any number of further times, leaves the
/// bucket state of the first addition unchanged: the key's rank is a
/// deterministic function of the key, and a bucket already holds at least
/// that rank after the first addition.
pub proof fn lemma_add_idempotent(b: Seq<u64>, p: u16, key: u64)
    requires
        p <= MAX_PRECISION,
        b.len() == pow2(p as nat) || b.len() == 0,
    ensures
        spec_add(spec_add(b, p, key), p, key) == spec_add(b, p, key),
{
    if b.len() != 0 {
        lemma_bucket_index_lt(spec_hash64(key), p);
        let b1 = spec_add(b, p, key);
        assert(spec_add(b1, p, key) =~= b1);
    }
}

/// A state in which no bucket was ever raised — freshly built, with any
/// precision, or degenerate — estimates a cardinality of zero.
pub proof fn lemma_zero_state_estimate(b: Seq<u64>)
    requires
        spec_all_zero(b),
    ensures
        spec_estimate(b) == 0,
{
}

pub struct HyperLogLog {
    n_bits: u16,
    buckets: Vec<u64>,
    cardinality: u64,
}

impl HyperLogLog {
    /// The precision: buckets are selected by this many leading hash bits.
    pub closed spec fn spec_precision(self) -> u16 {
        self.n_bits
    }

    /// The per-bucket maximum ranks observed so far.
    pub closed spec fn spec_buckets(self) -> Seq<u64> {
        self.buckets@
    }

    /// The estimate cached by the last `compute_cardinality` call.
    pub closed spec fn spec_cached(self) -> u64 {
        self.cardinality
    }

    /// Well-formedness: a valid precision, either `2^precision` buckets or
    /// none (the degenerate estimator), and every bucket within the range
    /// ranks can take.
    pub open spec fn wf(self) -> bool {
        &&& self.spec_precision() <= MAX_PRECISION
        &&& (self.spec_buckets().len() == pow2(self.spec_precision() as nat)
            || self.spec_buckets().len() == 0)
        &&& forall|i: int|
            0 <= i < self.spec_buckets().len() ==> (#[trigger] self.spec_buckets()[i]) <= (
            HASH_BITS - self.spec_precision()) as u64
    }

    /// Builds an estimator with `2^n_bits` zeroed buckets.  A negative or
    /// too-large precision is not an error: it yields the degenerate
    /// estimator with no buckets, whose estimate is always zero.
    pub fn new(n_bits: i16) -> (r: Self)
        ensures
            r.wf(),
            r.spec_cached() == 0,
            0 <= n_bits <= MAX_PRECISION ==> r.spec_precision() == n_bits
                && r.spec_buckets().len() == pow2(n_bits as nat),
            !(0 <= n_bits <= MAX_PRECISION) ==> r.spec_buckets().len() == 0,
            forall|i: int| 0 <= i < r.spec_buckets().len() ==> r.spec_buckets()[i] == 0,
    {
        let mut buckets: Vec<u64> = Vec::new();
        let mut precision: u16 = 0;
        if 0 <= n_bits && n_bits <= 6 {
            precision = n_bits as u16;
            let num_buckets: u64 = 1u64 << (precision as u64);
            proof {
                vstd::bits::lemma_u64_pow2_no_overflow(precision as nat);
                lemma_u64_shl_is_mul(1u64, precision as u64);
            }
            let mut k: u64 = 0;
            while k < num_buckets
                invariant
                    k <= num_buckets,
                    buckets@.len() == k,
                    forall|i: int| 0 <= i < buckets@.len() ==> buckets@[i] == 0,
                decreases num_buckets - k,
            {
                buckets.push(0);
                k = k + 1;
            }
        }
        HyperLogLog { n_bits: precision, buckets, cardinality: 0 }
    }

    /// Returns the cached estimate; `compute_cardinality` refreshes it.
    pub fn get_cardinality(&self) -> (r: u64)
        ensures
            r == self.spec_cached(),
    {
        self.cardinality
    }

    /// How many buckets the estimator keeps: `2^precision`, or none for
    /// the degenerate estimator.
    pub fn bucket_count(&self) -> (r: usize)
        ensures
            r == self.spec_buckets().len(),
    {
        self.buckets.len()
    }

    /// Hashes a key with the fixed mixer.
    fn calculate_hash(key: u64) -> (h: u64)
        ensures
            h == spec_hash64(key),
    {
        let a = (key ^ (key >> 33)).wrapping_mul(MIX_MUL_1);
        let b = (a ^ (a >> 33)).wrapping_mul(MIX_MUL_2);
        b ^ (b >> 33)
    }

    /// Bucket selected by a hash: its top `p` bits.
    fn bucket_of(h: u64, p: u16) -> (i: u64)
        requires
            p <= MAX_PRECISION,
        ensures
            i == spec_bucket_index(h, p),
            i < pow2(p as nat),
    {
        proof {
            vstd::bits::lemma_u64_pow2_no_overflow(p as nat);
            lemma_u64_shl_is_mul(1u64, p as u64);
            vstd::arithmetic::power2::lemma2_to64();
        }
        if p == 0 {
            0
        } else {
            let i = h >> ((64 - p) as u64);
            assert(i < (1u64 << (p as u64))) by (bit_vector)
                requires
                    1 <= p <= 6,
                    i == h >> ((64 - p) as u64),
            ;
            i
        }
    }

    /// Rank of a hash: position of the leftmost set bit of the low
    /// `64 - p` bits, counted from the most significant side, starting
    /// at 1; `64 - p` when those bits are all zero.
    fn position_of_leftmost_one(h: u64, p: u16) -> (r: u64)
        requires
            p <= MAX_PRECISION,
        ensures
            r == spec_rank(h, p),
            1 <= r <= (HASH_BITS - p) as u64,
    {
        let rem = h << (p as u64);
        if rem == 0 {
            64 - (p as u64)
        } else {
            let lz: u32 = rem.leading_zeros();
            proof {
                axiom_u64_leading_zeros(rem);
                let lzv = u64_leading_zeros(rem);
                assert(0 <= lzv < 64);
                if lzv > 63 - p {
                    let s = (63 - lzv) as u64;
                    assert((rem >> s) & 1u64 != 0u64);
                    assert(s < p <= 6 ==> ((h << (p as u64)) >> s) & 1u64 == 0u64)
                        by (bit_vector);
                    assert(false);
                }
            }
            (lz as u64) + 1
        }
    }

    /// Routes a key to its bucket and raises that bucket to the key's rank
    /// if the rank is larger.  No bucket ever decreases, and adding a key a
    /// second time leaves the state unchanged.
    pub fn add_elem(&mut self, val: u64)
        requires
            old(self).wf(),
        ensures
            final(self).wf(),
            final(self).spec_precision() == old(self).spec_precision(),
            final(self).spec_cached() == old(self).spec_cached(),
            final(self).spec_buckets() == spec_add(
                old(self).spec_buckets(),
                old(self).spec_precision(),
                val,
            ),
            final(self).spec_buckets().len() == old(self).spec_buckets().len(),
            forall|i: int|
                0 <= i < old(self).spec_buckets().len() ==> (#[trigger] old(
                    self,
                ).spec_buckets()[i]) <= final(self).spec_buckets()[i],
    {
        if self.buckets.len() > 0 {
            let h = Self::calculate_hash(val);
            let idx_u64 = Self::bucket_of(h, self.n_bits);
            let rank = Self::position_of_leftmost_one(h, self.n_bits);
            let idx = idx_u64 as usize;
            let cur = self.buckets[idx];
            if cur < rank {
                self.buckets[idx] = rank;
            } else {
                proof {
                    assert(self.buckets@ =~= self.buckets@.update(
                        idx as int,
                        self.buckets@[idx as int],
                    ));
                }
            }
        }
    }

    /// Recomputes the cardinality estimate from the current bucket state,
    /// caches it, and returns it: the bias-corrected harmonic mean of the
    /// bucket weights, in exact integer arithmetic, and zero for a
    /// degenerate or untouched state.  Reading state only, it can be
    /// repeated freely: the same buckets give the same estimate.
    pub fn compute_cardinality(&mut self) -> (est: u64)
        requires
            old(self).wf(),
        ensures
            final(self).wf(),
            final(self).spec_precision() == old(self).spec_precision(),
            final(self).spec_buckets() == old(self).spec_buckets(),
            final(self).spec_cached() == spec_estimate(old(self).spec_buckets()),
            est == final(self).spec_cached(),
    {
        let m = self.buckets.len();
        if m == 0 {
            self.cardinality = 0;
            return 0;
        }
        proof {
            lemma_bucket_count_le_64(self.n_bits);
        }
        let mut sum: u128 = 0;
        let mut all_zero: bool = true;
        let mut k: usize = 0;
        while k < m
            invariant
                k <= m,
                m == self.buckets@.len(),
                1 <= m <= 64,
                forall|i: int|
                    0 <= i < self.buckets@.len() ==> (#[trigger] self.buckets@[i]) <= 64,
                sum == spec_weight_sum(self.buckets@.take(k as int)),
                all_zero == spec_all_zero(self.buckets@.take(k as int)),
                sum <= (k as int) * 0x1_0000_0000_0000_0000,
                sum >= k,
            decreases m - k,
        {
            let b = self.buckets[k];
            let w: u128 = if b == 0 {
                proof {
                    vstd::arithmetic::power2::lemma2_to64_rest();
                }
                0x1_0000_0000_0000_0000u128
            } else {
                proof {
                    vstd::bits::lemma_u64_pow2_no_overflow((64 - b) as nat);
                    lemma_u64_shl_is_mul(1u64, (64 - b) as u64);
                }
                (1u64 << ((64 - b) as u64)) as u128
            };
            proof {
                assert(w == spec_weight(b));
                let taken = self.buckets@.take(k as int + 1);
                assert(taken.drop_last() =~= self.buckets@.take(k as int));
                assert(taken.last() == b);
                assert(spec_all_zero(taken) <==> (spec_all_zero(self.buckets@.take(k as int)) && b
                    == 0)) by {
                    if spec_all_zero(self.buckets@.take(k as int)) && b == 0 {
                        assert forall|i: int| 0 <= i < taken.len() implies (#[trigger] taken[i])
                            == 0 by {
                            if i < k as int {
                                assert(self.buckets@.take(k as int)[i] == 0);
                            }
                        }
                    }
                }
            }
            sum = sum + w;
            all_zero = all_zero && (b == 0);
            k = k + 1;
        }
        proof {
            assert(self.buckets@.take(m as int) =~= self.buckets@);
        }
        if all_zero {
            self.cardinality = 0;
            return 0;
        }
        proof {
            vstd::arithmetic::power2::lemma2_to64();
            vstd::arithmetic::power2::lemma2_to64_rest();
            lemma_weight_sum_lower(self.buckets@, self.n_bits);
            let mm = m as int;
            assert(mm * pow2(self.n_bits as nat) == mm * mm);
            assert(sum >= mm * mm);
        }
        let mu = m as u128;
        let x1 = ALPHA_NUM * mu;
        proof {
            assert(x1 * mu <= 79402 * 64 * 64) by (nonlinear_arith)
                requires
                    0 <= x1 <= 79402 * 64,
                    0 <= mu <= 64,
            ;
        }
        let x2 = x1 * mu;
        let num = x2 * 0x1_0000_0000_0000_0000u128;
        let den = ALPHA_DEN * sum;
        proof {
            let mm = m as int;
            assert((ALPHA_NUM as int) * mm * mm < (ALPHA_DEN as int) * (sum as int))
                by (nonlinear_arith)
                requires
                    sum >= mm * mm,
                    1 <= mm,
                    ALPHA_NUM == 79402,
                    ALPHA_DEN == 100000,
            ;
            assert((num as int) < (den as int) * pow2(64)) by (nonlinear_arith)
                requires
                    num == (ALPHA_NUM as int) * mm * mm * pow2(64),
                    den == (ALPHA_DEN as int) * (sum as int),
                    (ALPHA_NUM as int) * mm * mm < (ALPHA_DEN as int) * (sum as int),
                    pow2(64) > 0,
            ;
            vstd::arithmetic::div_mod::lemma_multiply_divide_lt(
                num as int,
                den as int,
                pow2(64) as int,
            );
        }
        let q = num / den;
        self.cardinality = q as u64;
        q as u64
    }
}

} // verus!
