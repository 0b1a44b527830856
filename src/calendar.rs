use vstd::prelude::*;
use vstd::string::*;
use chrono::{Datelike, NaiveDate};
use crate::billing::CostError;
use crate::text::{digit_char, nat_to_text};

verus! {

/// A calendar day (proleptic Gregorian, UTC).
#[derive(Clone, Copy, Debug, PartialEq, Eq, Structural)]
pub struct Date {
    pub year: i32,
    pub month: u32,
    pub day: u32,
}

pub open spec fn is_leap_year(y: int) -> bool {
    y % 4 == 0 && (y % 100 != 0 || y % 400 == 0)
}

pub open spec fn days_in_month(y: int, m: int) -> int {
    if m == 2 {
        if is_leap_year(y) { 29 } else { 28 }
    } else if m == 4 || m == 6 || m == 9 || m == 11 {
        30
    } else {
        31
    }
}

/// A real calendar day in the years 1 to 9999, the range whose ISO form is `YYYY-MM-DD`.
pub open spec fn valid_date(y: int, m: int, d: int) -> bool {
    1 <= y <= 9999 && 1 <= m <= 12 && 1 <= d <= days_in_month(y, m)
}

impl Date {
    pub open spec fn wf(self) -> bool {
        valid_date(self.year as int, self.month as int, self.day as int)
    }

    /// The day given by year, month and day, if it is a real day in the years 1 to 9999.
    pub fn new(year: i32, month: u32, day: u32) -> (r: Option<Date>)
        ensures
            r is Some <==> valid_date(year as int, month as int, day as int),
            r matches Some(d) ==> d.year == year && d.month == month && d.day == day,
    {
        if year < 1 || year > 9999 || month < 1 || month > 12 || day < 1 {
            return None;
        }
        if day <= month_length(year, month) {
            Some(Date { year, month, day })
        } else {
            None
        }
    }
}

fn month_length(year: i32, month: u32) -> (r: u32)
    requires
        1 <= year <= 9999,
        1 <= month <= 12,
    ensures
        r as int == days_in_month(year as int, month as int),
{
    if month == 2 {
        if year % 4 == 0 && (year % 100 != 0 || year % 400 == 0) {
            29
        } else {
            28
        }
    } else if month == 4 || month == 6 || month == 9 || month == 11 {
        30
    } else {
        31
    }
}

/// The calendar day before `(y, m, d)`.
pub open spec fn previous_day(y: int, m: int, d: int) -> (int, int, int) {
    if d > 1 {
        (y, m, d - 1)
    } else if m > 1 {
        (y, m - 1, days_in_month(y, m - 1))
    } else {
        (y - 1, 12, 31)
    }
}

/// [`previous_day`] in the machine types of a date's fields.
pub open spec fn previous_day_of(year: i32, month: u32, day: u32) -> (i32, u32, u32) {
    let p = previous_day(year as int, month as int, day as int);
    (p.0 as i32, p.1 as u32, p.2 as u32)
}

/// Relies on chrono's `NaiveDate::pred_opt`: the day before a date, which exists for
/// every date from year 1 on (`from_ymd_opt` accepts every such valid date).
#[verifier::external_body]
fn day_before(year: i32, month: u32, day: u32) -> (r: Option<(i32, u32, u32)>)
    requires
        valid_date(year as int, month as int, day as int),
    ensures
        r == Some(previous_day_of(year, month, day)),
{
    NaiveDate::from_ymd_opt(year, month, day).and_then(|d| d.pred_opt()).map(
        |p| (p.year(), p.month(), p.day()),
    )
}

/// The day before `date`; fails when that day is before year 1.
pub fn day_earlier(date: Date) -> (r: Result<Date, CostError>)
    requires
        date.wf(),
    ensures
        match r {
            Ok(p) => p.wf() && (p.year as int, p.month as int, p.day as int) == previous_day(
                date.year as int,
                date.month as int,
                date.day as int,
            ),
            Err(e) => e == CostError::DateComputationFailure && date.year == 1 && date.month == 1
                && date.day == 1,
        },
{
    match day_before(date.year, date.month, date.day) {
        Some((y, m, d)) => {
            if y < 1 {
                Err(CostError::DateComputationFailure)
            } else {
                Ok(Date { year: y, month: m, day: d })
            }
        },
        None => Err(CostError::DateComputationFailure),
    }
}

/// The first day of the month after the month of `(y, m)`.
pub open spec fn next_month_start(y: int, m: int) -> (int, int, int) {
    if m == 12 {
        (y + 1, 1, 1)
    } else {
        (y, m + 1, 1)
    }
}

/// The first day of the month after `date`'s; fails after December 9999.
pub fn first_of_next_month(date: Date) -> (r: Result<Date, CostError>)
    requires
        date.wf(),
    ensures
        match r {
            Ok(n) => n.wf() && (n.year as int, n.month as int, n.day as int) == next_month_start(
                date.year as int,
                date.month as int,
            ),
            Err(e) => e == CostError::DateComputationFailure && date.year == 9999 && date.month
                == 12,
        },
{
    if date.month == 12 {
        if date.year >= 9999 {
            Err(CostError::DateComputationFailure)
        } else {
            Ok(Date { year: date.year + 1, month: 1, day: 1 })
        }
    } else {
        Ok(Date { year: date.year, month: date.month + 1, day: 1 })
    }
}

/// A half-open range of days `[start, end)` for a billing request.
#[derive(Clone, Copy, Debug, PartialEq, Eq, Structural)]
pub struct Window {
    pub start: Date,
    pub end: Date,
}

pub open spec fn same_day(d: Date, t: (int, int, int)) -> bool {
    d.year as int == t.0 && d.month as int == t.1 && d.day as int == t.2
}

/// The window of the per-service breakdown: the day before yesterday, `[today-2, today-1)`.
pub fn service_cost_window(today: Date) -> (r: Result<Window, CostError>)
    requires
        today.wf(),
    ensures
        match r {
            Ok(w) => {
                let y = previous_day(today.year as int, today.month as int, today.day as int);
                w.end.wf() && w.start.wf() && same_day(w.end, y) && same_day(
                    w.start,
                    previous_day(y.0, y.1, y.2),
                )
            },
            Err(e) => e == CostError::DateComputationFailure && today.year == 1 && today.month == 1
                && today.day <= 2,
        },
{
    let yesterday = day_earlier(today)?;
    let before = day_earlier(yesterday)?;
    Ok(Window { start: before, end: yesterday })
}

/// The window of the forecast: from today to the first day of next month.
pub fn forecast_window(today: Date) -> (r: Result<Window, CostError>)
    requires
        today.wf(),
    ensures
        match r {
            Ok(w) => w.start == today && w.end.wf() && same_day(
                w.end,
                next_month_start(today.year as int, today.month as int),
            ),
            Err(e) => e == CostError::DateComputationFailure && today.year == 9999 && today.month
                == 12,
        },
{
    let end = first_of_next_month(today)?;
    Ok(Window { start: today, end })
}

/// The window of the month-to-date cost: the whole current month.
pub fn month_to_date_window(today: Date) -> (r: Result<Window, CostError>)
    requires
        today.wf(),
    ensures
        match r {
            Ok(w) => w.start.wf() && w.start.year == today.year && w.start.month == today.month
                && w.start.day == 1 && w.end.wf() && same_day(
                w.end,
                next_month_start(today.year as int, today.month as int),
            ),
            Err(e) => e == CostError::DateComputationFailure && today.year == 9999 && today.month
                == 12,
        },
{
    let end = first_of_next_month(today)?;
    Ok(Window { start: Date { year: today.year, month: today.month, day: 1 }, end })
}

/// `n` in decimal, zero-padded to `width` digits.
pub open spec fn padded_text(n: nat, width: nat) -> Seq<char>
    decreases width,
{
    if width == 0 {
        Seq::<char>::empty()
    } else {
        padded_text(n / 10, (width - 1) as nat).push(digit_char((n % 10) as int))
    }
}

/// The ISO form `YYYY-MM-DD` of a date.
pub open spec fn iso_text(d: Date) -> Seq<char> {
    padded_text(d.year as nat, 4) + seq!['-'] + padded_text(d.month as nat, 2) + seq!['-']
        + padded_text(d.day as nat, 2)
}

fn padded_to_text(n: u32, width: u32) -> (r: String)
    ensures
        r@ == padded_text(n as nat, width as nat),
    decreases width,
{
    if width == 0 {
        String::new()
    } else {
        let mut s = padded_to_text(n / 10, width - 1);
        let d = nat_to_text((n % 10) as u128);
        proof {
            reveal_with_fuel(crate::text::nat_text, 1);
        }
        s.append(d.as_str());
        s
    }
}

impl Date {
    /// The ISO form `YYYY-MM-DD` used in billing requests.
    pub fn to_iso(&self) -> (r: String)
        requires
            self.wf(),
        ensures
            r@ == iso_text(*self),
    {
        proof {
            reveal_strlit("-");
        }
        let mut s = padded_to_text(self.year as u32, 4);
        s.append("-");
        let m = padded_to_text(self.month, 2);
        s.append(m.as_str());
        s.append("-");
        let d = padded_to_text(self.day, 2);
        s.append(d.as_str());
        s
    }
}

} // verus!
