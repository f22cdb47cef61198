//! The calls this library makes into chrono, regex and std's integer
//! formatting. Each function here is believed, not proved: its contract
//! restates what the called crate documents.
use chrono::Datelike;
use vstd::prelude::*;

verus! {

/// Decimal digits of a natural number, most significant first.
pub open spec fn digits(n: nat) -> Seq<char>
    decreases n,
{
    let d = ((n % 10) as u8 + 48u8) as char;
    if n < 10 {
        seq![d]
    } else {
        digits(n / 10).push(d)
    }
}

/// The decimal text of an integer, with a leading `-` when it is negative.
pub open spec fn decimal(n: int) -> Seq<char> {
    if n < 0 {
        seq!['-'] + digits((-n) as nat)
    } else {
        digits(n as nat)
    }
}

/// What `chrono::NaiveDate::parse_from_str(text, fmt)` yields, as
/// (year, month, day), or `None` where it returns an error.
pub uninterp spec fn date_fields(text: Seq<char>, fmt: Seq<char>) -> Option<(i32, u32, u32)>;

/// What `chrono::NaiveTime::parse_from_str(text, fmt)` yields, as
/// (hour, minute), or `None` where it returns an error.
pub uninterp spec fn time_fields(text: Seq<char>, fmt: Seq<char>) -> Option<(u32, u32)>;

/// Whether `regex::Regex::new(pattern)` compiles and then matches `text`;
/// `None` where the pattern does not compile.
pub uninterp spec fn regex_outcome(pattern: Seq<char>, text: Seq<char>) -> Option<bool>;

/// Relies on `<i64 as ToString>::to_string`: the decimal form of the number.
#[verifier::external_body]
pub(crate) fn int_text(n: i64) -> (r: String)
    ensures
        r@ == decimal(n as int),
{
    n.to_string()
}

/// Relies on `chrono::NaiveDate::parse_from_str` and the `Datelike` getters.
/// A `NaiveDate` is always a real calendar date, so its month lies in 1..=12
/// and its day in 1..=31.
#[verifier::external_body]
pub(crate) fn parse_date(text: &str, fmt: &str) -> (r: Option<(i32, u32, u32)>)
    ensures
        r == date_fields(text@, fmt@),
        r matches Some((y, m, d)) ==> 1 <= m <= 12 && 1 <= d <= 31,
{
    match chrono::NaiveDate::parse_from_str(text, fmt) {
        Ok(date) => Some((date.year(), date.month(), date.day())),
        Err(_) => None,
    }
}

/// Relies on `chrono::NaiveTime::parse_from_str` and the `Timelike` getters:
/// an hour lies in 0..24 and a minute in 0..60.
#[verifier::external_body]
pub(crate) fn parse_time(text: &str, fmt: &str) -> (r: Option<(u32, u32)>)
    ensures
        r == time_fields(text@, fmt@),
        r matches Some((h, m)) ==> h < 24 && m < 60,
{
    match chrono::NaiveTime::parse_from_str(text, fmt) {
        Ok(time) => Some((chrono::Timelike::hour(&time), chrono::Timelike::minute(&time))),
        Err(_) => None,
    }
}

/// Relies on `regex::Regex::new` and `regex::Regex::is_match`: compiles the
/// pattern and tests whether it matches anywhere in `text`.
#[verifier::external_body]
pub(crate) fn regex_match(pattern: &str, text: &str) -> (r: Option<bool>)
    ensures
        r == regex_outcome(pattern@, text@),
{
    match regex::Regex::new(pattern) {
        Ok(re) => Some(re.is_match(text)),
        Err(_) => None,
    }
}

/// Relies on `chrono::Local::now` and `Datelike::year`: the current year on
/// the local clock. Nothing is known of its value.
#[verifier::external_body]
pub(crate) fn current_year() -> (r: i32) {
    chrono::Local::now().year()
}

/// What `str::trim` leaves of a text.
pub uninterp spec fn trimmed(s: Seq<char>) -> Seq<char>;

/// Relies on `str::trim`: the text without leading and trailing whitespace.
/// Trimming an empty text leaves it empty.
#[verifier::external_body]
pub(crate) fn trim(s: &str) -> (r: &str)
    ensures
        r@ == trimmed(s@),
        s@.len() == 0 ==> r@.len() == 0,
{
    s.trim()
}

} // verus!
