//! Moments in time as jiff reads them: RFC 3339 timestamps, taken as whole
//! seconds since the Unix epoch.
use vstd::prelude::*;

verus! {

/// The earliest and latest second a jiff `Timestamp` can hold (its `MIN`
/// and `MAX`, rounded outwards to whole days).
pub open spec fn in_time(s: int) -> bool {
    -377705116800 <= s <= 253402300799
}

/// The whole seconds since the epoch of the moment a text names, as jiff
/// reads a timestamp (`str::parse::<Timestamp>`, then `as_second`).
pub uninterp spec fn timestamp_seconds(text: Seq<char>) -> Option<i64>;

/// `text.parse::<jiff::Timestamp>()` and `Timestamp::as_second`: the
/// seconds of the moment, or `None` when jiff does not read the text as a
/// timestamp. Every `Timestamp` lies between `Timestamp::MIN` and
/// `Timestamp::MAX`.
#[verifier::external_body]
pub(crate) fn moment_seconds(text: &str) -> (r: Option<i64>)
    ensures
        r == timestamp_seconds(text@),
        r matches Some(s) ==> in_time(s as int),
{
    match text.parse::<jiff::Timestamp>() {
        Ok(t) => Some(t.as_second()),
        Err(_) => None,
    }
}

/// `jiff::Timestamp::now().as_second()`: the clock, so nothing is said of
/// which second it gives but that it is one a `Timestamp` can hold.
#[verifier::external_body]
pub(crate) fn now_seconds() -> (r: i64)
    ensures
        in_time(r as int),
{
    jiff::Timestamp::now().as_second()
}

} // verus!
