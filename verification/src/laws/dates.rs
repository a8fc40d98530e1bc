//! What day it is.

use vstd::prelude::*;

use crate::time::{
    date, days_of_month, days_of_year, iso, leap, month_after, padded, year_after,
};

verus! {

proof fn lemma_year(y: int, r: int)
    requires
        r >= 0,
    ensures
        ({
            let (year, rest) = year_after(y, r);
            &&& year >= y
            &&& 0 <= rest < days_of_year(year)
            &&& year_after(y, r + 1) == if rest + 1 < days_of_year(year) {
                (year, rest + 1)
            } else {
                (year + 1, 0int)
            }
        }),
    decreases r,
{
    if r < days_of_year(y) {
        if r + 1 >= days_of_year(y) {
            assert(year_after(y, r + 1) == year_after(y + 1, r + 1 - days_of_year(y)));
            assert(year_after(y + 1, 0) == (y + 1, 0int));
        }
    } else {
        lemma_year(y + 1, r - days_of_year(y));
        assert(year_after(y, r + 1) == year_after(y + 1, r + 1 - days_of_year(y)));
    }
}

spec fn leaps_before(y: int) -> int {
    (y - 1) / 4 - (y - 1) / 100 + (y - 1) / 400
}

spec fn days_in(y: int, n: nat) -> int {
    365 * n + leaps_before(y + n) - leaps_before(y)
}

proof fn lemma_leap(y: int)
    ensures
        leaps_before(y + 1) - leaps_before(y) == if leap(y) {
            1int
        } else {
            0
        },
{
    lemma_fourth(y);
    lemma_hundredth(y);
    lemma_four_hundredth(y);
}

proof fn lemma_fourth(y: int)
    ensures
        y / 4 - (y - 1) / 4 == if y % 4 == 0 {
            1int
        } else {
            0
        },
        (y + 400) / 4 == y / 4 + 100,
{
}

proof fn lemma_hundredth(y: int)
    ensures
        y / 100 - (y - 1) / 100 == if y % 100 == 0 {
            1int
        } else {
            0
        },
        (y + 400) / 100 == y / 100 + 4,
        y % 100 == 0 ==> y % 4 == 0,
{
}

proof fn lemma_four_hundredth(y: int)
    ensures
        y / 400 - (y - 1) / 400 == if y % 400 == 0 {
            1int
        } else {
            0
        },
        (y + 400) / 400 == y / 400 + 1,
        y % 400 == 0 ==> y % 100 == 0,
{
}

proof fn lemma_years_on(y: int, n: nat, x: int)
    requires
        x >= 0,
    ensures
        year_after(y, days_in(y, n) + x) == year_after(y + n, x),
        days_in(y, n) >= 0,
    decreases n,
{
    if n > 0 {
        lemma_years_on(y + 1, (n - 1) as nat, x);
        lemma_leap(y);
        assert(days_in(y, n) == days_of_year(y) + days_in(y + 1, (n - 1) as nat));
    }
}

proof fn lemma_cycle(y: int)
    ensures
        year_after(y, 146097) == (y + 400, 0int),
{
    lemma_years_on(y, 400, 0);
    lemma_fourth(y - 1);
    lemma_hundredth(y - 1);
    lemma_four_hundredth(y - 1);
    assert(leaps_before(y + 400) == leaps_before(y) + 97);
    assert(days_in(y, 400) == 146097);
    assert(year_after(y + 400, 0) == (y + 400, 0int));
}

proof fn lemma_month(year: int, r: int)
    requires
        0 <= r < days_of_year(year),
    ensures
        ({
            let (month, day) = month_after(year, 1, r);
            &&& 1 <= month <= 12
            &&& 0 <= day < days_of_month(year, month)
            &&& day + 1 < days_of_month(year, month) ==> r + 1 < days_of_year(year) && month_after(
                year,
                1,
                r + 1,
            ) == (month, day + 1)
            &&& day + 1 == days_of_month(year, month) && month < 12 ==> r + 1 < days_of_year(year)
                && month_after(year, 1, r + 1) == (month + 1, 0int)
            &&& day + 1 == days_of_month(year, month) && month == 12 ==> r + 1 == days_of_year(year)
        }),
{
    reveal_with_fuel(month_after, 13);
}

/// The days go on one by one from the first of 1970: to the next of the month, from the last
/// of a month to the first of the next, and from the last of a year to the first of the next.
pub proof fn law_the_days_go_on_one_by_one(n: int)
    requires
        n >= 0,
    ensures
        date(0) == (1970int, 1int, 1int),
        ({
            let (y, m, d) = date(n);
            &&& 1970 <= y
            &&& 1 <= m <= 12
            &&& 1 <= d <= days_of_month(y, m)
            &&& date(n + 1) == if d < days_of_month(y, m) {
                (y, m, d + 1)
            } else if m < 12 {
                (y, m + 1, 1int)
            } else {
                (y + 1, 1int, 1int)
            }
        }),
{
    assert(year_after(1970, 0) == (1970int, 0int));
    assert(month_after(1970, 1, 0) == (1int, 0int));
    let q = n / 146097;
    let r = n % 146097;
    let start = 1970 + 400 * q;
    lemma_year(start, r);
    let (year, rest) = year_after(start, r);
    lemma_month(year, rest);
    if r + 1 < 146097 {
        assert((n + 1) / 146097 == q && (n + 1) % 146097 == r + 1);
    } else {
        assert((n + 1) / 146097 == q + 1 && (n + 1) % 146097 == 0);
        lemma_cycle(start);
        assert(year_after(start + 400, 0) == (start + 400, 0int));
    }
    assert(month_after(year + 1, 1, 0) == (1int, 0int));
}

/// A time is written as its date and its hour, minute, second and thousandth.
pub proof fn law_how_a_time_is_written(day: nat, h: nat, m: nat, s: nat, x: nat)
    requires
        h < 24,
        m < 60,
        s < 60,
        x < 1000,
    ensures
        ({
            let (y, mo, d) = date(day as int);
            iso(day * 86_400_000 + h * 3_600_000 + m * 60_000 + s * 1_000 + x) == padded(
                y as nat,
                4,
            ) + "-"@ + padded(mo as nat, 2) + "-"@ + padded(d as nat, 2) + "T"@ + padded(h, 2)
                + ":"@ + padded(m, 2) + ":"@ + padded(s, 2) + "."@ + padded(x, 3) + "Z"@
        }),
{
    let ms = day * 86_400_000 + h * 3_600_000 + m * 60_000 + s * 1_000 + x;
    assert(ms / 86_400_000 == day);
    let rest = ms % 86_400_000;
    assert(rest == h * 3_600_000 + m * 60_000 + s * 1_000 + x);
    assert(rest / 3_600_000 == h);
    assert(rest / 60_000 == h * 60 + m);
    assert((rest / 60_000) % 60 == m);
    assert(rest / 1_000 == (h * 60 + m) * 60 + s);
    assert((rest / 1_000) % 60 == s);
    assert(rest % 1_000 == x);
}

} // verus!
