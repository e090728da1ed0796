use vstd::prelude::*;

verus! {

/// The result of parsing a timestamp written in the feed's fixed format
/// (year, month, day, then hour, minute, second) into whole seconds since
/// the Unix epoch; `None` when the text does not parse in that format.
pub uninterp spec fn parsed_timestamp(s: Seq<char>) -> Option<i64>;

/// A bound on every timestamp the parser can hand back, far inside the
/// `i64` range, so that differences of two parsed timestamps never
/// overflow.
pub(crate) const TIMESTAMP_BOUND: i64 = 200_000_000_000_000;

/// Relies on chrono's `NaiveDateTime::parse_from_str` with the format
/// `%Y%m%d %H:%M:%S`, and on `DateTime::<Utc>::timestamp`: both are pure
/// functions of the string alone, and `timestamp` returns whole seconds
/// since the Unix epoch. chrono computes the timestamp from an `i32` day
/// count, so its magnitude stays well under `TIMESTAMP_BOUND`.
#[verifier::external_body]
pub(crate) fn parse_timestamp(s: &str) -> (r: Option<i64>)
    ensures
        r == parsed_timestamp(s@),
        r matches Some(v) ==> -TIMESTAMP_BOUND < v < TIMESTAMP_BOUND,
{
    chrono::NaiveDateTime::parse_from_str(s, "%Y%m%d %H:%M:%S")
        .ok()
        .map(|dt| dt.and_utc().timestamp())
}

} // verus!
