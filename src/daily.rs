//! The once-a-day marker that gates the daily signal pass.
use crate::decimal::{decimal_padded, padded};
use chrono::Datelike;
use vstd::prelude::*;

verus! {

/// A calendar date in the proleptic Gregorian calendar.
pub struct CalendarDate {
    pub year: i32,
    pub month: u32,
    pub day: u32,
}

impl CalendarDate {
    pub open spec fn wf(&self) -> bool {
        1 <= self.month <= 12 && 1 <= self.day <= 31
    }
}

/// The year as `%Y` writes it: four digits for years 0 to 9999, otherwise
/// a sign followed by at least four digits.
pub open spec fn year_text(y: int) -> Seq<char> {
    if 0 <= y <= 9999 {
        padded(y as nat, 4)
    } else if y < 0 {
        seq!['-'] + padded((-y) as nat, 4)
    } else {
        seq!['+'] + padded(y as nat, 4)
    }
}

/// The marker's file name for a date: `.radius.YYYY-MM-DD`.
pub open spec fn marker_text(year: int, month: nat, day: nat) -> Seq<char> {
    seq!['.', 'r', 'a', 'd', 'i', 'u', 's', '.'] + year_text(year) + seq!['-'] + padded(month, 2)
        + seq!['-'] + padded(day, 2)
}

/// Relies on chrono's `Local::now` for the current local date, and on its
/// `Datelike` accessors: `month` ranges over 1 to 12, `day` over 1 to 31.
#[verifier::external_body]
fn today() -> (r: CalendarDate)
    ensures
        r.wf(),
{
    let d = chrono::Local::now().date_naive();
    CalendarDate { year: d.year(), month: d.month(), day: d.day() }
}

/// The file name of the daily marker for `date`.
pub fn daily_marker(date: &CalendarDate) -> (r: String)
    ensures
        r@ == marker_text(date.year as int, date.month as nat, date.day as nat),
{
    proof {
        reveal_strlit(".radius.");
        reveal_strlit("-");
        reveal_strlit("+");
    }
    let mut s = String::from_str(".radius.");
    let y = date.year as i64;
    if 0 <= y && y <= 9999 {
        s.append(decimal_padded(y as u64, 4).as_str());
    } else if y < 0 {
        s.append("-");
        s.append(decimal_padded((-y) as u64, 4).as_str());
    } else {
        s.append("+");
        s.append(decimal_padded(y as u64, 4).as_str());
    }
    s.append("-");
    s.append(decimal_padded(date.month as u64, 2).as_str());
    s.append("-");
    s.append(decimal_padded(date.day as u64, 2).as_str());
    proof {
        assert(s@ =~= marker_text(date.year as int, date.month as nat, date.day as nat));
    }
    s
}

/// The file name of today's daily marker.
pub fn daily_marker_today() -> (r: String)
    ensures
        exists|y: int, m: nat, d: nat|
            1 <= m <= 12 && 1 <= d <= 31 && r@ == #[trigger] marker_text(y, m, d),
{
    let date = today();
    daily_marker(&date)
}

} // verus!
