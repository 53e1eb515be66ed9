//! When a stored copy of the roster is too old to be used as it is.

use vstd::prelude::*;

verus! {

/// The age in seconds beyond which a stored roster is fetched anew: one day.
pub const CACHE_LIFETIME: u64 = 86400;

/// Whether a stored roster of the given age is outdated. The age is given in
/// whole seconds and the nanoseconds beyond them; no age, for a roster that
/// is not there or whose age cannot be told, counts as outdated.
pub fn is_cache_outdated(age: Option<(u64, u32)>) -> (outdated: bool)
    ensures
        outdated == match age {
            Some((seconds, nanos)) => seconds * 1_000_000_000 + nanos > CACHE_LIFETIME
                * 1_000_000_000,
            None => true,
        },
{
    match age {
        Some((seconds, nanos)) => {
            let age: u128 = (seconds as u128) * 1_000_000_000 + (nanos as u128);
            age > (CACHE_LIFETIME as u128) * 1_000_000_000
        },
        None => true,
    }
}

} // verus!
