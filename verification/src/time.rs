//! The two clock/calendar facts the store needs from chrono: the current
//! epoch second, and the date a stored timestamp falls on.

use vstd::prelude::*;

verus! {

/// The `YYYY-MM-DD` date, in universal time, that the given epoch-second
/// instant falls on.
pub uninterp spec fn date_str_of(t: i64) -> Seq<char>;

/// Relies on chrono's `DateTime::<Utc>::from_timestamp` and the ISO 8601
/// display of `NaiveDate`: the rendered date is a function of the epoch
/// second alone. An instant outside chrono's representable range renders
/// as the empty string.
#[verifier::external_body]
pub(crate) fn date_string_of(t: i64) -> (r: String)
    ensures
        r@ == date_str_of(t),
{
    match chrono::DateTime::<chrono::Utc>::from_timestamp(t, 0) {
        Some(dt) => dt.date_naive().to_string(),
        None => String::new(),
    }
}

/// Relies on chrono's `Utc::now` and `DateTime::timestamp`: the current
/// epoch second. Nothing is promised of the value.
#[verifier::external_body]
pub(crate) fn now_epoch() -> i64 {
    chrono::Utc::now().timestamp()
}

} // verus!
