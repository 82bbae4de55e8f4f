//! The coarse monotonic clock, and what is read off an elapsed time.
//!
//! Times are ticks of `coarsetime`: seconds in the upper 32 bits, a binary
//! fraction of a second in the lower 32.

use vstd::prelude::*;

verus! {

/// The text of a duration of `secs` seconds and `nanos` nanoseconds in the
/// standard debug form with three fractional digits, such as `1.000s`.
pub uninterp spec fn duration_text(secs: u64, nanos: u32) -> Seq<char>;

/// The whole seconds in a number of ticks.
pub open spec fn secs_of(ticks: u64) -> int {
    ticks as int / 0x1_0000_0000
}

/// The nanoseconds in the fraction of a second of a number of ticks.
pub open spec fn subsec_nanos_of(ticks: u64) -> int {
    ((ticks as int % 0x1_0000_0000) * 125_000_000) / 0x2000_0000
}

/// All of a number of ticks in nanoseconds.
pub open spec fn nanos_of(ticks: u64) -> int {
    (ticks as int * 125_000_000) / 0x2000_0000
}

/// The ticks elapsed at `now` since `start`: none where the clock reads earlier.
pub open spec fn ticks_between(start: u64, now: u64) -> u64 {
    if now >= start {
        (now - start) as u64
    } else {
        0
    }
}

/// `coarsetime::Instant::now`, as ticks: the reading of the coarse monotonic
/// clock. Nothing is promised of the value.
#[verifier::external_body]
pub(crate) fn clock_now() -> (ticks: u64)
{
    coarsetime::Instant::now().as_ticks()
}

/// `coarsetime::Duration::as_secs` of a duration of `ticks` ticks: the upper 32 bits.
#[verifier::external_body]
pub(crate) fn ticks_secs(ticks: u64) -> (secs: u64)
    ensures
        secs == secs_of(ticks),
{
    coarsetime::Duration::from_ticks(ticks).as_secs()
}

/// `coarsetime::Duration::subsec_nanos` of a duration of `ticks` ticks: the lower
/// 32 bits, scaled from 2^32 to 10^9 parts of a second.
#[verifier::external_body]
pub(crate) fn ticks_subsec_nanos(ticks: u64) -> (nanos: u32)
    ensures
        nanos == subsec_nanos_of(ticks),
{
    coarsetime::Duration::from_ticks(ticks).subsec_nanos()
}

/// `coarsetime::Duration::as_nanos` of a duration of `ticks` ticks.
#[verifier::external_body]
pub(crate) fn ticks_nanos(ticks: u64) -> (nanos: u64)
    ensures
        nanos == nanos_of(ticks),
{
    coarsetime::Duration::from_ticks(ticks).as_nanos()
}

/// The debug form of `std::time::Duration` with precision 3. `Duration::new`
/// panics where the nanoseconds carry the seconds over the top: whole seconds of
/// nanoseconds are left out.
#[verifier::external_body]
pub(crate) fn duration_debug(secs: u64, nanos: u32) -> (text: String)
    requires
        nanos < 1_000_000_000,
    ensures
        text@ == duration_text(secs, nanos),
{
    format!("{:.3?}", std::time::Duration::new(secs, nanos))
}

/// The ticks elapsed at `now` since `start`, as `Instant - Instant` gives them.
pub fn elapsed_ticks(start: u64, now: u64) -> (ticks: u64)
    ensures
        ticks == ticks_between(start, now),
{
    if now >= start {
        now - start
    } else {
        0
    }
}

/// The text of an elapsed time of `ticks` ticks.
pub fn elapsed_text(ticks: u64) -> (text: String)
    ensures
        text@ == duration_text(secs_of(ticks) as u64, subsec_nanos_of(ticks) as u32),
{
    let secs = ticks_secs(ticks);
    let nanos = ticks_subsec_nanos(ticks);
    duration_debug(secs, nanos)
}

} // verus!
