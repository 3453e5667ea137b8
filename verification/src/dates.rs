//! Calendar dates, through `chrono`.
//!
//! A date is held as the number of days from the first day of the Common
//! Era (`Datelike::num_days_from_ce`), so that 0001-01-01 is day 1.
use vstd::prelude::*;

verus! {

/// The day (counted from the Common Era) that `chrono` reads from all of `s`
/// with the strftime-style format `fmt`, if it reads one.
pub uninterp spec fn strptime_days(s: Seq<char>, fmt: Seq<char>) -> Option<i32>;

/// The day that `chrono` reads from a prefix of `s` with the format `fmt`,
/// leaving the rest of `s` unread, if it reads one.
pub uninterp spec fn strptime_prefix_days(s: Seq<char>, fmt: Seq<char>) -> Option<i32>;

/// The ISO text (`YYYY-MM-DD`) that `chrono` writes for a day, or the empty
/// text when the day is out of `chrono`'s range.
pub uninterp spec fn iso_date_text(days: i32) -> Seq<char>;

/// Days from the Common Era of 1970-01-01, the day that integer dates count from.
pub open spec fn unix_epoch_days() -> int {
    719163
}

/// `chrono::NaiveDate::parse_from_str`: the whole of `s` must match `fmt`.
/// Claimed: the result is `strptime_days(s, fmt)`, a function of the two
/// texts alone; nothing more is said of which texts parse.
#[verifier::external_body]
pub(crate) fn parse_date_exact(s: &str, fmt: &str) -> (r: Option<i32>)
    ensures
        r == strptime_days(s@, fmt@),
{
    chrono::NaiveDate::parse_from_str(s, fmt).ok().map(|d| chrono::Datelike::num_days_from_ce(&d))
}

/// `chrono::NaiveDate::parse_and_remainder`: a prefix of `s` must match
/// `fmt`.  Claimed: the result is `strptime_prefix_days(s, fmt)`, a function
/// of the two texts alone.
#[verifier::external_body]
pub(crate) fn parse_date_prefix(s: &str, fmt: &str) -> (r: Option<i32>)
    ensures
        r == strptime_prefix_days(s@, fmt@),
{
    chrono::NaiveDate::parse_and_remainder(s, fmt).ok().map(
        |(d, _)| chrono::Datelike::num_days_from_ce(&d),
    )
}

/// `chrono::NaiveDate::from_num_days_from_ce_opt` followed by its `Display`.
/// Claimed: the text is `iso_date_text(days)`, a function of the day alone.
#[verifier::external_body]
pub(crate) fn date_text(days: i32) -> (r: String)
    ensures
        r@ == iso_date_text(days),
{
    match chrono::NaiveDate::from_num_days_from_ce_opt(days) {
        Some(d) => d.to_string(),
        None => String::new(),
    }
}

/// The current year in the local time zone (`chrono::Local::now().year()`).
/// Nothing is claimed of the value: it depends on the clock and the zone.
#[verifier::external_body]
pub(crate) fn current_year() -> (r: i32) {
    chrono::Datelike::year(&chrono::Local::now())
}

} // verus!
