use chrono::{Datelike, TimeZone, Utc};
use vstd::prelude::*;

verus! {

/// The `chrono` crate can hold the instant that lies `millis` milliseconds
/// after the start of 1970 in UTC.
pub uninterp spec fn utc_accepts(millis: int) -> bool;

/// The text that the `chrono` crate writes for that instant under `pattern`.
pub uninterp spec fn utc_text(millis: int, pattern: Seq<char>) -> Seq<char>;

/// Year, month and day of that instant in UTC, as the `chrono` crate counts
/// them.
pub uninterp spec fn utc_date(millis: int) -> (int, int, int);

/// The pattern under which a message's time is written.
pub open spec fn timestamp_pattern() -> Seq<char> {
    "%Y-%m-%d %H:%M:%S"@
}

/// The pattern under which a message's time is written.
pub fn timestamp_format() -> (r: &'static str)
    ensures
        r@ == timestamp_pattern(),
{
    "%Y-%m-%d %H:%M:%S"
}

/// Calls `chrono::TimeZone::timestamp_millis_opt` on `Utc` and asks whether it
/// gave a single instant. Believed of it: the answer depends on the number
/// alone.
#[verifier::external_body]
pub(crate) fn utc_millis_valid(millis: i64) -> (r: bool)
    ensures
        r == utc_accepts(millis as int),
{
    Utc.timestamp_millis_opt(millis).single().is_some()
}

/// Calls `chrono::DateTime::format` on the instant that
/// `timestamp_millis_opt` gives. Believed of it: the text depends on the number
/// and the pattern alone. Only the one pattern is handed in, which `chrono`
/// can write.
#[verifier::external_body]
pub(crate) fn utc_format(millis: i64, pattern: &str) -> (r: String)
    requires
        utc_accepts(millis as int),
        pattern@ == timestamp_pattern(),
    ensures
        r@ == utc_text(millis as int, pattern@),
{
    Utc.timestamp_millis_opt(millis).single().unwrap().format(pattern).to_string()
}

/// Calls `year`, `month` and `day` of `chrono::Datelike` on the instant that
/// `timestamp_millis_opt` gives. Believed of them: the date depends on the
/// number alone.
#[verifier::external_body]
pub(crate) fn utc_date_of(millis: i64) -> (r: (i32, u32, u32))
    requires
        utc_accepts(millis as int),
    ensures
        (r.0 as int, r.1 as int, r.2 as int) == utc_date(millis as int),
{
    let t = Utc.timestamp_millis_opt(millis).single().unwrap();
    (t.year(), t.month(), t.day())
}

} // verus!
