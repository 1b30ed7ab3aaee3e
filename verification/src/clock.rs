//! The system clock.
use vstd::prelude::*;

verus! {

/// The milliseconds since the Unix epoch: `SystemTime::now()`, then
/// `duration_since(UNIX_EPOCH)` (a clock set before the epoch gives the zero
/// duration) and `Duration::as_millis`. The value depends on the clock;
/// all that is claimed is the bound a `Duration` (whole seconds in a `u64`
/// and less than a second more) puts on its milliseconds.
#[verifier::external_body]
pub(crate) fn system_millis() -> (r: u128)
    ensures
        r <= max_duration_millis(),
{
    std::time::SystemTime::now().duration_since(std::time::UNIX_EPOCH).unwrap_or_default().as_millis()
}

/// The most milliseconds a `Duration` holds: whole seconds in a `u64` and
/// less than a second more.
pub open spec fn max_duration_millis() -> int {
    u64::MAX as u128 * 1000 + 999
}

/// The whole seconds in a number of milliseconds.
pub open spec fn whole_seconds(millis: u128) -> int {
    millis as int / 1000
}

/// The low 64 bits of a number of milliseconds.
pub open spec fn low_bits(millis: u128) -> u64 {
    millis as u64
}

/// The whole seconds in a number of milliseconds (see [`whole_seconds`]).
pub fn seconds_from_millis(millis: u128) -> (r: u64)
    requires
        millis <= max_duration_millis(),
    ensures
        r == whole_seconds(millis),
{
    (millis / 1000) as u64
}

/// A number of milliseconds cut to its low 64 bits, as `as u64` does (see
/// [`low_bits`]).
pub fn millis_as_u64(millis: u128) -> (r: u64)
    ensures
        r == low_bits(millis),
{
    #[verifier::truncate]
    (millis as u64)
}

} // verus!
