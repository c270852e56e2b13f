//! Outside items the library relies on, with the contracts it assumes of them.
use vstd::prelude::*;
use core::time::Duration;

verus! {

/// The duration of the given number of whole seconds.
pub uninterp spec fn duration_from_secs(secs: u64) -> Duration;

/// Relies on `Duration::from_secs`: the result depends on its argument alone.
pub assume_specification[ core::time::Duration::from_secs ](secs: u64) -> (r: Duration)
    ensures
        r == duration_from_secs(secs),
;

/// The backplane's description of an abnormal termination, carried as is.
#[verifier::external_type_specification]
#[verifier::external_body]
pub struct ExFault(async_backplane::Fault);

/// The whole number of milliseconds a duration spans.
pub uninterp spec fn millis_of(d: Duration) -> u128;

/// Relies on `Duration::as_millis`: the result depends on the duration alone.
pub assume_specification[ core::time::Duration::as_millis ](d: &Duration) -> (r: u128)
    ensures
        r == millis_of(*d),
;

} // verus!
