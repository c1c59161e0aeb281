//! Calendar dates feed the seed derivation of the letter machine.

use vstd::prelude::*;
use chrono::Datelike;

verus! {

/// The day, month and year that a text in `YYYYMMDD` form denotes, or
/// nothing when it is not a valid date.  Parsing depends on the text
/// alone.
pub uninterp spec fn date_parts(s: Seq<char>) -> Option<(u64, u64, u64)>;

/// Relies on `chrono::NaiveDate::parse_from_str` with the format
/// `"%Y%m%d"`, and on `Datelike::day`, `month` and `year`: parsing is
/// a function of the text alone, a parsed day lies in 1..=31 and a
/// parsed month in 1..=12; the year is cast to `u64` as-is.
#[verifier::external_body]
pub(crate) fn parse_date_ymd(s: &str) -> (r: Option<(u64, u64, u64)>)
    ensures
        r == date_parts(s@),
        r matches Some(p) ==> 1 <= p.0 <= 31 && 1 <= p.1 <= 12,
{
    match chrono::NaiveDate::parse_from_str(s, "%Y%m%d") {
        Ok(d) => Some((d.day() as u64, d.month() as u64, d.year() as u64)),
        Err(_) => None,
    }
}

/// Relies on `chrono::Local::now` and its `format`: the clock yields
/// some valid local date, whose `"%Y%m%d"` rendering is eight digits
/// and parses back under the same format.  The eight-digit shape
/// relies on the clock reading a year between 1 and 9999: outside
/// that range the format would carry a sign or extra digits.
#[verifier::external_body]
pub(crate) fn today_ymd() -> (r: String)
    ensures
        date_parts(r@) is Some,
        r@.len() == 8,
        forall|i: int| 0 <= i < r@.len() ==> crate::text::is_digit(#[trigger] r@[i]),
{
    chrono::Local::now().format("%Y%m%d").to_string()
}

} // verus!
