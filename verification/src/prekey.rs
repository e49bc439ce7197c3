//! When a user's one-time prekeys run low.
use vstd::prelude::*;

verus! {

/// Whether a known count of remaining one-time prekeys is low (one or none); an unknown
/// count is not reported as low.
pub fn prekey_low_one_time_prekeys(remaining: Option<usize>) -> (r: bool)
    ensures
        r == (remaining matches Some(n) && n <= 1),
{
    match remaining {
        Some(n) => n <= 1,
        None => false,
    }
}

/// Whether one-time prekeys must be replenished: when one or none remain, or when the
/// count is unknown.
pub fn prekey_replenishment_required(remaining: Option<usize>) -> (r: bool)
    ensures
        r == (match remaining {
            Some(n) => n <= 1,
            None => true,
        }),
{
    match remaining {
        Some(n) => n <= 1,
        None => true,
    }
}

} // verus!
