//! Times as text.

use vstd::prelude::*;

use crate::number::Millis;
use crate::text::{dec, decimal};

verus! {

pub open spec fn leap(year: int) -> bool {
    year % 4 == 0 && (year % 100 != 0 || year % 400 == 0)
}

pub open spec fn days_of_year(year: int) -> int {
    if leap(year) {
        366
    } else {
        365
    }
}

pub open spec fn days_of_month(year: int, month: int) -> int {
    if month == 2 {
        if leap(year) {
            29
        } else {
            28
        }
    } else if month == 4 || month == 6 || month == 9 || month == 11 {
        30
    } else {
        31
    }
}

/// The year a number of days after the start of a year is in, and how many
/// days into that year it is.
pub open spec fn year_after(year: int, days: int) -> (int, int)
    decreases days,
{
    if days < 0 || days < days_of_year(year) {
        (year, days)
    } else {
        year_after(year + 1, days - days_of_year(year))
    }
}

/// The month a number of days after the start of a month is in, and how many
/// days into that month it is.
pub open spec fn month_after(year: int, month: int, days: int) -> (int, int)
    decreases 12 - month,
{
    if month >= 12 || days < days_of_month(year, month) {
        (month, days)
    } else {
        month_after(year, month + 1, days - days_of_month(year, month))
    }
}

/// Year, month and day of the month, a number of days after the first day of
/// 1970. The calendar repeats every 146097 days, four hundred years.
pub open spec fn date(days: int) -> (int, int, int) {
    let (year, rest) = year_after(1970 + 400 * (days / 146097), days % 146097);
    let (month, day) = month_after(year, 1, rest);
    (year, month, day + 1)
}

/// A number with zeros before it up to a width.
pub open spec fn padded(n: nat, width: nat) -> Seq<char> {
    if dec(n).len() >= width {
        dec(n)
    } else {
        Seq::new((width - dec(n).len()) as nat, |i: int| '0') + dec(n)
    }
}

/// A time in ISO 8601, in UTC and to the millisecond.
pub open spec fn iso(ms: nat) -> Seq<char> {
    let (year, month, day) = date(ms as int / 86_400_000);
    let rest = ms % 86_400_000;
    padded(year as nat, 4) + "-"@ + padded(month as nat, 2) + "-"@ + padded(day as nat, 2) + "T"@
        + padded(rest / 3_600_000, 2) + ":"@ + padded((rest / 60_000) % 60, 2) + ":"@ + padded(
        (rest / 1_000) % 60,
        2,
    ) + "."@ + padded(rest % 1_000, 3) + "Z"@
}

pub fn pad(n: u64, width: usize) -> (s: String)
    ensures
        s@ == padded(n as nat, width as nat),
{
    let digits = decimal(n);
    let have: usize = digits.as_str().unicode_len();
    let mut s = String::new();
    let mut i: usize = have;
    while i < width
        invariant
            have == dec(n as nat).len(),
            i <= width || i == have,
            i >= have,
            s@ == Seq::new((i - have) as nat, |i: int| '0'),
        decreases width - i,
    {
        s.push('0');
        i += 1;
        assert(s@ =~= Seq::new((i - have) as nat, |i: int| '0'));
    }
    s.append(digits.as_str());
    assert(s@ =~= padded(n as nat, width as nat));
    s
}

fn is_leap(year: u64) -> (r: bool)
    ensures
        r == leap(year as int),
{
    year % 4 == 0 && (year % 100 != 0 || year % 400 == 0)
}

fn date_of(days: u64) -> (r: (u64, u64, u64))
    requires
        days <= 0x1_0000_0000_0000,
    ensures
        (r.0 as int, r.1 as int, r.2 as int) == date(days as int),
{
    let mut year: u64 = 1970 + 400 * (days / 146097);
    let mut rest: u64 = days % 146097;
    let ghost start = year_after(year as int, rest as int);
    loop
        invariant
            year + rest <= 0x100_0000_0000_0000,
            start == year_after(year as int, rest as int),
        ensures
            start == (year as int, rest as int),
        decreases rest,
    {
        let long: u64 = if is_leap(year) {
            366
        } else {
            365
        };
        if rest < long {
            break;
        }
        rest -= long;
        year += 1;
    }
    let mut month: u64 = 1;
    let ghost from = month_after(year as int, 1, rest as int);
    loop
        invariant
            1 <= month <= 12,
            rest <= 0x100_0000_0000_0000,
            from == month_after(year as int, month as int, rest as int),
        ensures
            from == (month as int, rest as int),
            rest <= 0x100_0000_0000_0000,
        decreases 12 - month,
    {
        let long: u64 = if month == 2 {
            if is_leap(year) {
                29
            } else {
                28
            }
        } else if month == 4 || month == 6 || month == 9 || month == 11 {
            30
        } else {
            31
        };
        if month >= 12 || rest < long {
            break;
        }
        rest -= long;
        month += 1;
    }
    (year, month, rest + 1)
}

/// A time in ISO 8601, in UTC and to the millisecond.
pub fn iso_millis(ms: Millis) -> (s: String)
    ensures
        s@ == iso(ms as nat),
{
    let (year, month, day) = date_of(ms / 86_400_000);
    let rest: u64 = ms % 86_400_000;
    pad(year, 4).concat("-").concat(pad(month, 2).as_str()).concat("-").concat(
        pad(day, 2).as_str(),
    ).concat("T").concat(pad(rest / 3_600_000, 2).as_str()).concat(":").concat(
        pad((rest / 60_000) % 60, 2).as_str(),
    ).concat(":").concat(pad((rest / 1_000) % 60, 2).as_str()).concat(".").concat(
        pad(rest % 1_000, 3).as_str(),
    ).concat("Z")
}

} // verus!
