//! The day-level decisions: whether today is a holiday, and how long until
//! the next day starts.
use crate::bindings::parse_date;
use crate::conf::{
    date_after, date_of, is_after, ConfigView, Configuration, SeasonView, DATE_FORMAT,
};
use vstd::prelude::*;

verus! {

/// `today` lies within the season, ends included. A season whose dates do not
/// parse holds no day.
pub open spec fn in_season(s: SeasonView, today: (i32, u32, u32)) -> bool {
    match (date_of(s.start), date_of(s.end)) {
        (Some(a), Some(b)) => !date_after(a, today) && !date_after(today, b),
        _ => false,
    }
}

/// Today is a public holiday or falls within a holiday season.
pub open spec fn holiday_today(c: ConfigView, today: (i32, u32, u32)) -> bool {
    (exists|i: int| 0 <= i < c.holidays.len() && date_of(#[trigger] c.holidays[i].date) == Some(today))
        || (exists|j: int| 0 <= j < c.seasons.len() && in_season(#[trigger] c.seasons[j], today))
}

/// Whether `today`, as (year, month, day), is a holiday under `config`.
pub fn is_holiday(config: &Configuration, today: (i32, u32, u32)) -> (r: bool)
    ensures
        r == holiday_today(config@, today),
{
    let ghost c = config@;
    let mut i: usize = 0;
    while i < config.public_holidays.len()
        invariant
            c == config@,
            i <= c.holidays.len(),
            forall|k: int| 0 <= k < i ==> date_of(#[trigger] c.holidays[k].date) != Some(today),
        decreases c.holidays.len() - i,
    {
        assert(c.holidays[i as int] == config.public_holidays@[i as int]@);
        let d = parse_date(config.public_holidays[i].date.as_str(), DATE_FORMAT);
        match d {
            Some(x) => {
                if x.0 == today.0 && x.1 == today.1 && x.2 == today.2 {
                    assert(date_of(c.holidays[i as int].date) == Some(today));
                    return true;
                }
            },
            None => {},
        }
        i = i + 1;
    }
    let mut j: usize = 0;
    while j < config.holiday_seasons.len()
        invariant
            c == config@,
            j <= c.seasons.len(),
            forall|k: int| 0 <= k < c.holidays.len() ==> date_of(#[trigger] c.holidays[k].date) != Some(today),
            forall|k: int| 0 <= k < j ==> !in_season(#[trigger] c.seasons[k], today),
        decreases c.seasons.len() - j,
    {
        assert(c.seasons[j as int] == config.holiday_seasons@[j as int]@);
        let s = &config.holiday_seasons[j];
        match (parse_date(s.start_date.as_str(), DATE_FORMAT), parse_date(s.end_date.as_str(), DATE_FORMAT)) {
            (Some(a), Some(b)) => {
                if !is_after(a, today) && !is_after(today, b) {
                    assert(in_season(c.seasons[j as int], today));
                    return true;
                }
            },
            _ => {},
        }
        j = j + 1;
    }
    false
}

/// Seconds left in the day after `now` seconds past midnight.
pub fn seconds_until_midnight(now: u32) -> (r: u32)
    requires
        now < 86400,
    ensures
        r == 86400 - now,
{
    86400 - now
}

} // verus!
