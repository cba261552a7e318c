//! The bucketing function: maps a timestamp to the start instant of the
//! fixed-duration time bucket it belongs to, by division-based flooring
//! against the epoch. Bucket boundaries are therefore stable across process
//! restarts and across independent observers of the same clock.

use vstd::prelude::*;

verus! {

/// The start instant of the bucket that `t` falls into, for bar duration `d`:
/// `floor(t / d) * d`, with both measured from the epoch.
pub open spec fn bucket_of(t: u128, d: u128) -> int
    recommends
        d > 0,
{
    (t as int / d as int) * d as int
}

/// Assigns a timestamp to its time bucket.
pub fn bucket_start(t: u128, d: u128) -> (r: u128)
    requires
        d > 0,
    ensures
        r == bucket_of(t, d),
        r <= t,
        t < r + d,
{
    proof {
        lemma_bucket_contains(t, d);
    }
    (t / d) * d
}

/// A bucket always contains the timestamp it was derived from:
/// `bucket_of(t, d) <= t < bucket_of(t, d) + d`.
pub proof fn lemma_bucket_contains(t: u128, d: u128)
    requires
        d > 0,
    ensures
        0 <= bucket_of(t, d),
        bucket_of(t, d) <= t,
        t < bucket_of(t, d) + d,
{
    vstd::arithmetic::div_mod::lemma_fundamental_div_mod(t as int, d as int);
    vstd::arithmetic::div_mod::lemma_mod_bound(t as int, d as int);
    vstd::arithmetic::div_mod::lemma_div_pos_is_pos(t as int, d as int);
    vstd::arithmetic::mul::lemma_mul_is_commutative(t as int / d as int, d as int);
    vstd::arithmetic::mul::lemma_mul_nonnegative(t as int / d as int, d as int);
}

/// Bucket assignment is non-decreasing in the timestamp, for a fixed duration.
pub proof fn lemma_bucket_monotonic(t1: u128, t2: u128, d: u128)
    requires
        d > 0,
        t1 <= t2,
    ensures
        bucket_of(t1, d) <= bucket_of(t2, d),
{
    vstd::arithmetic::div_mod::lemma_div_is_ordered(t1 as int, t2 as int, d as int);
    vstd::arithmetic::mul::lemma_mul_inequality(
        t1 as int / d as int,
        t2 as int / d as int,
        d as int,
    );
}

} // verus!
