use vstd::prelude::*;

verus! {

/// Instants are nanoseconds since the Unix epoch (UTC). Every instant the calendar can
/// represent lies far inside this bound.
pub open spec fn instant_bound() -> int {
    0x10000000000000000000000000
}

pub open spec fn is_plausible_instant(t: int) -> bool {
    -instant_bound() <= t <= instant_bound()
}

/// An instant that stays plausible after any camera-offset correction (|offset| < 2^84 ns).
pub open spec fn is_capture_instant(t: int) -> bool {
    -instant_bound() / 2 <= t <= instant_bound() / 2
}

/// Whole milliseconds in a span of nanoseconds, rounded toward zero.
pub open spec fn millis_toward_zero(nanos: int) -> int {
    if nanos >= 0 {
        nanos / 1_000_000
    } else {
        -((-nanos) / 1_000_000)
    }
}

/// Whole seconds in a span of nanoseconds, rounded toward zero.
pub open spec fn seconds_toward_zero(nanos: int) -> int {
    if nanos >= 0 {
        nanos / 1_000_000_000
    } else {
        -((-nanos) / 1_000_000_000)
    }
}

/// Milliseconds from `earlier` to `later`, rounded toward zero.
pub fn millis_between(later: i128, earlier: i128) -> (ms: i128)
    requires
        is_plausible_instant(later as int),
        is_plausible_instant(earlier as int),
    ensures
        ms == millis_toward_zero(later - earlier),
{
    let d = later - earlier;
    if d >= 0 {
        d / 1_000_000
    } else {
        -((-d) / 1_000_000)
    }
}

/// Seconds from `earlier` to `later`, rounded toward zero.
pub fn seconds_between(later: i128, earlier: i128) -> (s: i128)
    requires
        is_plausible_instant(later as int),
        is_plausible_instant(earlier as int),
    ensures
        s == seconds_toward_zero(later - earlier),
{
    let d = later - earlier;
    if d >= 0 {
        d / 1_000_000_000
    } else {
        -((-d) / 1_000_000_000)
    }
}

/// `instant` shifted by a number of milliseconds.
pub fn shift_by_millis(instant: i128, offset_ms: i64) -> (shifted: i128)
    requires
        is_capture_instant(instant as int),
    ensures
        shifted == instant + offset_ms * 1_000_000,
        is_plausible_instant(shifted as int),
{
    instant + (offset_ms as i128) * 1_000_000
}


/// An instant given as whole seconds since the epoch and nanoseconds within that second (a
/// leap second carries 10^9 or more nanoseconds and is counted into the next second).
pub open spec fn instant_of(secs: i64, nanos: u32) -> int {
    secs * 1_000_000_000 + nanos
}

pub fn instant_from_parts(secs: i64, nanos: u32) -> (t: i128)
    ensures
        t == instant_of(secs, nanos),
        is_plausible_instant(t as int),
{
    (secs as i128) * 1_000_000_000 + (nanos as i128)
}

/// What chrono's `DateTime::parse_from_rfc3339` gives for a text: the instant it names, as
/// seconds since the epoch and nanoseconds within the second, or nothing if it is no RFC 3339
/// date-time.
pub uninterp spec fn rfc3339_instant(text: Seq<char>) -> Option<(i64, u32)>;

/// chrono `DateTime::parse_from_rfc3339`, read as a UTC instant (`timestamp`,
/// `timestamp_subsec_nanos`). The parts are claimed to be the named ones of the text.
#[verifier::external_body]
pub(crate) fn parse_rfc3339(text: &str) -> (instant: Option<(i64, u32)>)
    ensures
        instant == rfc3339_instant(text@),
{
    chrono::DateTime::parse_from_rfc3339(text).ok().map(|t| (t.timestamp(), t.timestamp_subsec_nanos()))
}

} // verus!
