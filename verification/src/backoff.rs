//! Retry spacing for failing peers, and the bounds on DHT response sizes.
use vstd::prelude::*;
use vstd::arithmetic::power2::{pow2, lemma2_to64, lemma_pow2_strictly_increases, lemma_pow2_unfold, lemma_pow2_pos};

verus! {

/// First retry delay after a failed DHT exchange, in seconds.
pub const DHT_PEER_FAILURE_BACKOFF_BASE_SECONDS: u64 = 30;

/// Longest retry delay after failed DHT exchanges, in seconds.
pub const DHT_PEER_FAILURE_BACKOFF_MAX_SECONDS: u64 = 600;

/// Most records a DHT response may carry.
pub const MAX_DHT_RESPONSE_RECORDS: usize = 64;

/// Most routing nodes a DHT response may carry.
pub const MAX_DHT_RESPONSE_NODES: usize = 64;

/// `x`, but at least 1.
pub open spec fn at_least_one(x: u64) -> nat {
    if x >= 1 { x as nat } else { 1 }
}

/// The doubling step used after `failures` consecutive failures (at most 2^20).
pub open spec fn backoff_exponent(failures: u32) -> nat {
    if failures == 0 {
        0
    } else if failures - 1 > 20 {
        20
    } else {
        (failures - 1) as nat
    }
}

/// The retry delay: the base (at least 1) doubled once per consecutive failure after the
/// first, the product saturating at `u64::MAX`, and capped at `max` (at least 1).
pub open spec fn backoff_delay(base: u64, max: u64, failures: u32) -> nat {
    let raw = at_least_one(base) * pow2(backoff_exponent(failures));
    let sat = if raw > u64::MAX { u64::MAX as nat } else { raw };
    if sat > at_least_one(max) { at_least_one(max) } else { sat }
}

/// The delay in seconds before retrying a peer after `consecutive_failures` failures.
pub fn sync_backoff_delay_seconds(base: u64, max: u64, consecutive_failures: u32) -> (r: u64)
    ensures
        r == backoff_delay(base, max, consecutive_failures),
{
    let b: u64 = if base >= 1 { base } else { 1 };
    let m: u64 = if max >= 1 { max } else { 1 };
    let exponent: u32 = if consecutive_failures == 0 {
        0
    } else if consecutive_failures - 1 > 20 {
        20
    } else {
        consecutive_failures - 1
    };
    proof {
        lemma2_to64();
        if exponent < 20 {
            lemma_pow2_strictly_increases(exponent as nat, 20);
        }
        vstd::bits::lemma_u64_shl_is_mul(1, exponent as u64);
    }
    let p: u64 = 1u64 << (exponent as u64);
    let sat: u64 = match b.checked_mul(p) {
        Some(v) => v,
        None => u64::MAX,
    };
    if sat > m { m } else { sat }
}

/// Every delay is at least one second and at most the cap (itself at least one).
pub proof fn lemma_backoff_bounds(base: u64, max: u64, failures: u32)
    ensures
        1 <= backoff_delay(base, max, failures) <= at_least_one(max),
{
    lemma_pow2_pos(backoff_exponent(failures));
    vstd::arithmetic::mul::lemma_mul_increases(pow2(backoff_exponent(failures)) as int, at_least_one(base) as int);
}

/// One more consecutive failure never shortens the delay.
pub proof fn lemma_backoff_monotone(base: u64, max: u64, failures: u32)
    requires
        failures < u32::MAX,
    ensures
        backoff_delay(base, max, failures) <= backoff_delay(base, max, (failures + 1) as u32),
{
    let e1 = backoff_exponent(failures);
    let e2 = backoff_exponent((failures + 1) as u32);
    assert(e1 <= e2);
    if e1 < e2 {
        lemma_pow2_strictly_increases(e1, e2);
    }
    vstd::arithmetic::mul::lemma_mul_inequality(pow2(e1) as int, pow2(e2) as int, at_least_one(base) as int);
    vstd::arithmetic::mul::lemma_mul_is_commutative(pow2(e1) as int, at_least_one(base) as int);
    vstd::arithmetic::mul::lemma_mul_is_commutative(pow2(e2) as int, at_least_one(base) as int);
}

/// Below the cap, each further failure (up to the twenty-first) doubles the delay.
pub proof fn lemma_backoff_doubles(base: u64, max: u64, failures: u32)
    requires
        1 <= failures <= 20,
        2 * backoff_delay(base, max, failures) <= at_least_one(max),
    ensures
        backoff_delay(base, max, (failures + 1) as u32) == 2 * backoff_delay(base, max, failures),
{
    let e = backoff_exponent(failures);
    assert(backoff_exponent((failures + 1) as u32) == e + 1);
    lemma_pow2_unfold(e + 1);
    let b = at_least_one(base);
    vstd::arithmetic::mul::lemma_mul_is_associative(b as int, 2, pow2(e) as int);
    vstd::arithmetic::mul::lemma_mul_is_commutative(2, pow2(e) as int);
    assert(b * pow2(e + 1) == 2 * (b * pow2(e))) by (nonlinear_arith)
        requires
            pow2(e + 1) == 2 * pow2(e),
    ;
}

/// The number of records to ask for: the request clamped to 1..=64.
pub fn dht_response_record_limit(requested: usize) -> (r: usize)
    ensures
        r == (if requested < 1 { 1 } else if requested > MAX_DHT_RESPONSE_RECORDS { MAX_DHT_RESPONSE_RECORDS } else { requested }),
{
    if requested < 1 {
        1
    } else if requested > MAX_DHT_RESPONSE_RECORDS {
        MAX_DHT_RESPONSE_RECORDS
    } else {
        requested
    }
}

/// The number of routing nodes to ask for: the request clamped to 1..=64.
pub fn dht_response_node_limit(requested: usize) -> (r: usize)
    ensures
        r == (if requested < 1 { 1 } else if requested > MAX_DHT_RESPONSE_NODES { MAX_DHT_RESPONSE_NODES } else { requested }),
{
    if requested < 1 {
        1
    } else if requested > MAX_DHT_RESPONSE_NODES {
        MAX_DHT_RESPONSE_NODES
    } else {
        requested
    }
}

} // verus!
