//! Declared market prices and the calendar dates they carry.
use vstd::prelude::*;
use vstd::string::StringExecFns;
use crate::amount::{amount_text, Amount};
use crate::decimal::padded_digits;

verus! {

broadcast use vstd::string::group_string_axioms;

pub open spec fn is_leap_year(y: int) -> bool {
    y % 4 == 0 && (y % 100 != 0 || y % 400 == 0)
}

pub open spec fn days_in_month(y: int, m: int) -> int {
    if m == 2 {
        if is_leap_year(y) {
            29
        } else {
            28
        }
    } else if m == 4 || m == 6 || m == 9 || m == 11 {
        30
    } else {
        31
    }
}

/// A day of the proleptic Gregorian calendar in the range that `chrono`
/// represents.
pub open spec fn valid_ymd(y: int, m: int, d: int) -> bool {
    &&& -262143 <= y <= 262142
    &&& 1 <= m <= 12
    &&& 1 <= d <= days_in_month(y, m)
}

/// Relies on `chrono::NaiveDate::from_ymd_opt`: a date exists for a year in
/// chrono's range, a month from 1 to 12 and a day within that month.
#[verifier::external_body]
fn ymd_exists(year: i32, month: u32, day: u32) -> (r: bool)
    ensures
        r == valid_ymd(year as int, month as int, day as int),
{
    chrono::NaiveDate::from_ymd_opt(year, month, day).is_some()
}

/// A year as `%Y` writes it: four digits, zero-padded, for the years 0 to
/// 9999; otherwise a sign and at least four digits.
pub open spec fn year_text(y: int) -> Seq<char> {
    if 0 <= y <= 9999 {
        padded_digits(y as nat, 4)
    } else if y >= 0 {
        seq!['+'] + padded_digits(y as nat, 4)
    } else {
        seq!['-'] + padded_digits((-y) as nat, 4)
    }
}

/// A date as `%Y-%m-%d`, month and day in two digits.
pub open spec fn date_text(y: int, m: int, d: int) -> Seq<char> {
    year_text(y) + seq!['-'] + padded_digits(m as nat, 2) + seq!['-'] + padded_digits(d as nat, 2)
}

/// Relies on `chrono::NaiveDate`'s `Display`, which writes `%Y-%m-%d`.
#[verifier::external_body]
fn format_date(year: i32, month: u32, day: u32) -> (r: String)
    requires
        valid_ymd(year as int, month as int, day as int),
    ensures
        r@ == date_text(year as int, month as int, day as int),
{
    chrono::NaiveDate::from_ymd_opt(year, month, day).unwrap().to_string()
}

/// A calendar date.
#[derive(Debug, Clone, Copy, PartialEq, Eq)]
pub struct Date {
    pub year: i32,
    pub month: u32,
    pub day: u32,
}

impl Date {
    pub open spec fn wf(&self) -> bool {
        valid_ymd(self.year as int, self.month as int, self.day as int)
    }

    pub open spec fn text(&self) -> Seq<char> {
        date_text(self.year as int, self.month as int, self.day as int)
    }

    /// The date of that year, month and day, if it exists.
    pub fn from_ymd_opt(year: i32, month: u32, day: u32) -> (r: Option<Date>)
        ensures
            r is Some <==> valid_ymd(year as int, month as int, day as int),
            r matches Some(d) ==> d.year == year && d.month == month && d.day == day,
    {
        if ymd_exists(year, month, day) {
            Some(Date { year, month, day })
        } else {
            None
        }
    }

    /// The date as `YYYY-MM-DD`.
    pub fn to_text(&self) -> (r: String)
        requires
            self.wf(),
        ensures
            r@ == self.text(),
    {
        format_date(self.year, self.month, self.day)
    }
}

/// Declared market prices
#[derive(Debug, Clone, PartialEq, Eq)]
pub struct Price {
    /// The commodity of the price
    pub commodity: String,
    /// The date of the price
    pub date: Date,
    /// The amount of the price
    pub amount: Amount,
}

impl Price {
    pub open spec fn wf(&self) -> bool {
        self.date.wf() && self.amount.value.wf()
    }

    /// `P date commodity amount`.
    pub open spec fn text(&self) -> Seq<char> {
        seq!['P', ' '] + self.date.text() + seq![' '] + self.commodity@ + seq![' '] + amount_text(
            self.amount,
        )
    }

    pub fn to_text(&self) -> (r: String)
        requires
            self.wf(),
        ensures
            r@ == self.text(),
    {
        proof {
            reveal_strlit("P ");
            reveal_strlit(" ");
        }
        let mut t = "P ".to_string();
        let d = self.date.to_text();
        t.append(d.as_str());
        t.append(" ");
        t.append(self.commodity.as_str());
        t.append(" ");
        let a = self.amount.to_text();
        t.append(a.as_str());
        proof {
            assert(t@ =~= self.text());
        }
        t
    }
}

} // verus!
