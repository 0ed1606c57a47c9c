//! Calendar dates. [`Date`] holds a proleptic-Gregorian year, month and day
//! in the range `chrono::NaiveDate` supports; day arithmetic, weekdays and
//! date parsing are done by `chrono`.
use chrono::{Datelike, NaiveDate, TimeDelta};
use vstd::prelude::*;

verus! {

/// Smallest and largest years `chrono::NaiveDate` represents.
pub const MIN_YEAR: i32 = -262143;

pub const MAX_YEAR: i32 = 262142;

pub open spec fn is_leap_year(y: int) -> bool {
    y % 4 == 0 && (y % 100 != 0 || y % 400 == 0)
}

pub open spec fn days_in_month(y: int, m: int) -> int {
    if m == 2 {
        if is_leap_year(y) {
            29
        } else {
            28
        }
    } else if m == 4 || m == 6 || m == 9 || m == 11 {
        30
    } else {
        31
    }
}

/// A real calendar date inside `chrono`'s range.
pub open spec fn valid_ymd(y: int, m: int, d: int) -> bool {
    &&& MIN_YEAR <= y <= MAX_YEAR
    &&& 1 <= m <= 12
    &&& 1 <= d <= days_in_month(y, m)
}

/// Days since 1970-01-01 of the date `(y, m, d)` (negative before it).
#[verifier::opaque]
pub open spec fn day_number(v: (int, int, int)) -> int {
    let (y, m, d) = v;
    let yy = if m <= 2 {
        y - 1
    } else {
        y
    };
    let era = yy / 400;
    let yoe = yy - era * 400;
    let mp = if m > 2 {
        m - 3
    } else {
        m + 9
    };
    let doy = (153 * mp + 2) / 5 + d - 1;
    let doe = yoe * 365 + yoe / 4 - yoe / 100 + doy;
    era * 146097 + doe - 719468
}

/// The date `z` days after 1970-01-01.
#[verifier::opaque]
pub open spec fn civil_from_days(z: int) -> (int, int, int) {
    let zz = z + 719468;
    let era = zz / 146097;
    let doe = zz - era * 146097;
    let yoe = (doe - doe / 1460 + doe / 36524 - doe / 146096) / 365;
    let doy = doe - (365 * yoe + yoe / 4 - yoe / 100);
    let mp = (5 * doy + 2) / 153;
    let d = doy - (153 * mp + 2) / 5 + 1;
    let m = if mp < 10 {
        mp + 3
    } else {
        mp - 9
    };
    let y = yoe + era * 400 + (if m <= 2 {
        1int
    } else {
        0int
    });
    (y, m, d)
}

/// Day numbers of the first and last date `chrono` represents.
pub open spec fn first_day() -> int {
    day_number((MIN_YEAR as int, 1, 1))
}

pub open spec fn last_day() -> int {
    day_number((MAX_YEAR as int, 12, 31))
}

pub open spec fn day_in_range(z: int) -> bool {
    first_day() <= z <= last_day()
}

/// Weekday of a date, counted from Monday (`0`) to Sunday (`6`);
/// 1970-01-01 was a Thursday.
pub open spec fn weekday_of(v: (int, int, int)) -> int {
    (day_number(v) + 3) % 7
}

/// Chronological order of two dates: by year, then month, then day.
pub open spec fn date_lt(a: (int, int, int), b: (int, int, int)) -> bool {
    ||| a.0 < b.0
    ||| (a.0 == b.0 && a.1 < b.1)
    ||| (a.0 == b.0 && a.1 == b.1 && a.2 < b.2)
}

pub open spec fn date_le(a: (int, int, int), b: (int, int, int)) -> bool {
    date_lt(a, b) || a == b
}

/// A calendar date (year, month, day) that `chrono::NaiveDate` can hold.
#[derive(Clone, Copy, Debug, PartialEq, Eq, Hash, PartialOrd, Ord)]
pub struct Date {
    year: i32,
    month: u32,
    day: u32,
}

impl View for Date {
    type V = (int, int, int);

    closed spec fn view(&self) -> (int, int, int) {
        (self.year as int, self.month as int, self.day as int)
    }
}

impl Date {
    #[verifier::type_invariant]
    spec fn is_valid(self) -> bool {
        valid_ymd(self.year as int, self.month as int, self.day as int)
    }

    /// Every `Date` is a real calendar date inside `chrono`'s range.
    pub fn check_valid(&self)
        ensures
            valid_ymd(self@.0, self@.1, self@.2),
    {
        proof {
            use_type_invariant(self);
        }
    }

    /// The date `(year, month, day)`, when it is a real calendar date inside
    /// `chrono`'s range (as `NaiveDate::from_ymd_opt` accepts it).
    pub fn from_ymd_opt(year: i32, month: u32, day: u32) -> (r: Option<Date>)
        ensures
            r is Some <==> valid_ymd(year as int, month as int, day as int),
            r matches Some(d) ==> d@ == (year as int, month as int, day as int),
    {
        if year < MIN_YEAR || year > MAX_YEAR || month < 1 || month > 12 || day < 1 {
            return None;
        }
        // Shifted by a multiple of 400 years, which keeps leap years, to a
        // positive number.
        let shifted = (year + 262400) as u32;
        proof {
            assert(shifted % 4 == (year as int) % 4);
            assert(shifted % 100 == (year as int) % 100);
            assert(shifted % 400 == (year as int) % 400);
        }
        let leap = shifted % 4 == 0 && (shifted % 100 != 0 || shifted % 400 == 0);
        let days: u32 = if month == 2 {
            if leap {
                29
            } else {
                28
            }
        } else if month == 4 || month == 6 || month == 9 || month == 11 {
            30
        } else {
            31
        };
        if day > days {
            None
        } else {
            Some(Date { year, month, day })
        }
    }

    pub fn year(&self) -> (r: i32)
        ensures
            r == self@.0,
            MIN_YEAR <= r <= MAX_YEAR,
    {
        proof {
            use_type_invariant(self);
        }
        self.year
    }

    pub fn month(&self) -> (r: u32)
        ensures
            r == self@.1,
            1 <= r <= 12,
    {
        proof {
            use_type_invariant(self);
        }
        self.month
    }

    pub fn day(&self) -> (r: u32)
        ensures
            r == self@.2,
            1 <= r <= 31,
    {
        proof {
            use_type_invariant(self);
        }
        self.day
    }

    /// `NaiveDate::checked_add_signed` with `TimeDelta::try_days(n)`: the
    /// date `n` days later (earlier for negative `n`), or `None` when that
    /// date is outside `chrono`'s range.
    #[verifier::external_body]
    pub(crate) fn add_days(&self, n: i64) -> (r: Option<Date>)
        ensures
            r is Some <==> day_in_range(day_number(self@) + n),
            r matches Some(d) ==> d@ == civil_from_days(day_number(self@) + n) && day_number(d@)
                == day_number(self@) + n,
    {
        let date = NaiveDate::from_ymd_opt(self.year, self.month, self.day)?;
        let later = date.checked_add_signed(TimeDelta::try_days(n)?)?;
        Some(Date { year: later.year(), month: later.month(), day: later.day() })
    }

    /// `Datelike::weekday` as `num_days_from_monday`: `0` for Monday through
    /// `6` for Sunday.
    #[verifier::external_body]
    pub(crate) fn weekday(&self) -> (r: u32)
        ensures
            r == weekday_of(self@),
    {
        let date = NaiveDate::from_ymd_opt(self.year, self.month, self.day).unwrap();
        date.weekday().num_days_from_monday()
    }

    /// `(self - other).num_days()`: whole days from `other` to `self`.
    #[verifier::external_body]
    pub(crate) fn days_since(&self, other: &Date) -> (r: i64)
        ensures
            r == day_number(self@) - day_number(other@),
    {
        let this = NaiveDate::from_ymd_opt(self.year, self.month, self.day).unwrap();
        let that = NaiveDate::from_ymd_opt(other.year, other.month, other.day).unwrap();
        this.signed_duration_since(that).num_days()
    }

    /// Chronological `<`.
    pub fn is_before(&self, other: &Date) -> (r: bool)
        ensures
            r == date_lt(self@, other@),
    {
        self.year < other.year || (self.year == other.year && self.month < other.month) || (
        self.year == other.year && self.month == other.month && self.day < other.day)
    }

    /// Chronological `==`.
    pub fn same_day(&self, other: &Date) -> (r: bool)
        ensures
            r == (self@ == other@),
    {
        self.year == other.year && self.month == other.month && self.day == other.day
    }
}


/// Day numbers of valid dates stay well inside `i64`.
pub proof fn lemma_day_number_bounds(v: (int, int, int))
    requires
        valid_ymd(v.0, v.1, v.2),
    ensures
        -200_000_000 <= day_number(v) <= 200_000_000,
        -200_000_000 <= first_day() <= 200_000_000,
        -200_000_000 <= last_day() <= 200_000_000,
{
    reveal(day_number);
    let (y, m, d) = v;
    let yy = if m <= 2 { y - 1 } else { y };
    assert(-262144 <= yy <= 262142);
    let era = yy / 400;
    assert(-656 <= era <= 655);
    let yoe = yy - era * 400;
    assert(0 <= yoe < 400);
    let mp = if m > 2 { m - 3 } else { m + 9 };
    assert(0 <= mp <= 11);
    let doy = (153 * mp + 2) / 5 + d - 1;
    assert(0 <= doy <= 400);
    let doe = yoe * 365 + yoe / 4 - yoe / 100 + doy;
    assert(0 <= doe <= 150000) by (nonlinear_arith)
        requires
            0 <= yoe < 400,
            0 <= doy <= 400,
            doe == yoe * 365 + yoe / 4 - yoe / 100 + doy,
    ;
    assert(-200_000_000 <= era * 146097 + doe - 719468 <= 200_000_000) by (nonlinear_arith)
        requires
            -656 <= era <= 655,
            0 <= doe <= 150000,
    ;
    assert(first_day() == -96_465_292);
    assert(last_day() == 95_026_236);
}


/// Days from 1970-01-01 (shifted by 719468) to March 1 of year `yy + 1`
/// in the March-based year count the day-number formula uses.
pub open spec fn year_days(yy: int) -> int {
    365 * yy + yy / 4 - yy / 100 + yy / 400
}

proof fn lemma_day_number_split(v: (int, int, int))
    ensures
        day_number(v) == year_days(if v.1 <= 2 { v.0 - 1 } else { v.0 }) + (153 * (if v.1 > 2 {
            v.1 - 3
        } else {
            v.1 + 9
        }) + 2) / 5 + v.2 - 1 - 719468,
{
    reveal(day_number);
    let (y, m, d) = v;
    let yy = if m <= 2 { y - 1 } else { y };
    let era = yy / 400;
    let yoe = yy - era * 400;
    assert(yy == era * 400 + yoe);
    assert(0 <= yoe < 400);
    assert(yy / 4 == era * 100 + yoe / 4);
    assert(yy / 100 == era * 4 + yoe / 100);
}

proof fn lemma_year_days_step(a: int, b: int)
    requires
        a < b,
    ensures
        year_days(b) - year_days(a) >= 364 * (b - a),
{
    assert(b / 4 >= a / 4);
    assert(b / 400 >= a / 400);
    assert(b / 100 - a / 100 <= (b - a) / 100 + 1);
    assert((b - a) / 100 <= b - a);
}

/// Every valid date lies between the first and the last date `chrono`
/// represents.
pub proof fn lemma_valid_in_range(v: (int, int, int))
    requires
        valid_ymd(v.0, v.1, v.2),
    ensures
        day_in_range(day_number(v)),
{
    let (y, m, d) = v;
    let yy = if m <= 2 { y - 1 } else { y };
    let mp = if m > 2 { m - 3 } else { m + 9 };
    lemma_day_number_split(v);
    lemma_day_number_split((MIN_YEAR as int, 1, 1));
    lemma_day_number_split((MAX_YEAR as int, 12, 31));
    let doy = (153 * mp + 2) / 5 + d - 1;
    assert(0 <= doy <= 365);
    if yy > -262144 {
        lemma_year_days_step(-262144, yy);
    } else {
        assert(mp >= 10);
        assert(doy >= 306);
    }
    if yy < 262142 {
        lemma_year_days_step(yy, 262142);
    } else {
        assert(m >= 3);
        assert(doy <= 305);
    }
}

/// Start of each month of the March-based year, in days: March is month
/// `0`, February month `11`.
pub open spec fn month_offset(mp: int) -> int {
    (153 * mp + 2) / 5
}

/// Position of `v` in its March-based year, from `0`.
pub open spec fn day_of_year(v: (int, int, int)) -> int {
    month_offset(
        if v.1 > 2 {
            v.1 - 3
        } else {
            v.1 + 9
        },
    ) + v.2 - 1
}

proof fn lemma_month_offsets(mp: int)
    requires
        0 <= mp <= 10,
    ensures
        month_offset(mp + 1) - month_offset(mp) == days_in_month(
            2001,
            if mp <= 9 {
                mp + 3
            } else {
                mp - 9
            },
        ),
        forall|k: int| mp < k <= 11 ==> month_offset(mp + 1) <= #[trigger] month_offset(k),
{
    assert forall|k: int| mp < k <= 11 implies month_offset(mp + 1) <= #[trigger] month_offset(k) by {
        assert(153 * (mp + 1) + 2 <= 153 * k + 2);
    }
}

/// A March-based year has 366 days when the following January-based year is
/// a leap year, 365 otherwise.
proof fn lemma_year_length(yy: int)
    ensures
        year_days(yy + 1) - year_days(yy) == 365 + if is_leap_year(yy + 1) {
            1int
        } else {
            0int
        },
{
    let y = yy + 1;
    lemma_div_step(y, 4);
    lemma_div_step(y, 100);
    lemma_div_step(y, 400);
    lemma_div_step(y, 1);
    assert(y % 400 == 0 ==> y % 100 == 0) by {
        if y % 400 == 0 {
            assert(y == 400 * (y / 400));
            assert(y == 100 * (4 * (y / 400)));
        }
    }
    assert(y % 100 == 0 ==> y % 4 == 0) by {
        if y % 100 == 0 {
            assert(y == 100 * (y / 100));
            assert(y == 4 * (25 * (y / 100)));
        }
    }
}

proof fn lemma_div_step(y: int, k: int)
    requires
        k > 0,
    ensures
        y / k - (y - 1) / k == if y % k == 0 {
            1int
        } else {
            0int
        },
{
    let q = y / k;
    let r = y % k;
    vstd::arithmetic::div_mod::lemma_fundamental_div_mod(y, k);
    vstd::arithmetic::div_mod::lemma_fundamental_div_mod(y - 1, k);
    if r == 0 {
        vstd::arithmetic::div_mod::lemma_div_basics(k);
        assert((y - 1) / k == q - 1) by {
            assert(y - 1 == (q - 1) * k + (k - 1)) by (nonlinear_arith)
                requires
                    y == k * q + r,
                    r == 0,
            ;
            vstd::arithmetic::div_mod::lemma_fundamental_div_mod_converse(y - 1, k, q - 1, k - 1);
        }
    } else {
        assert((y - 1) / k == q) by {
            assert(y - 1 == q * k + (r - 1)) by (nonlinear_arith)
                requires
                    y == k * q + r,
            ;
            vstd::arithmetic::div_mod::lemma_fundamental_div_mod_converse(y - 1, k, q, r - 1);
        }
    }
}

/// The day of a date's March-based year stays inside that year.
proof fn lemma_day_of_year(v: (int, int, int))
    requires
        valid_ymd(v.0, v.1, v.2),
    ensures
        0 <= day_of_year(v),
        day_of_year(v) < year_days(
            if v.1 <= 2 {
                v.0
            } else {
                v.0 + 1
            },
        ) - year_days(
            if v.1 <= 2 {
                v.0 - 1
            } else {
                v.0
            },
        ),
{
    let yy = if v.1 <= 2 { v.0 - 1 } else { v.0 };
    let mp = if v.1 > 2 { v.1 - 3 } else { v.1 + 9 };
    lemma_year_length(yy);
    if mp <= 10 {
        lemma_month_offsets(mp);
        assert(month_offset(mp + 1) <= month_offset(11));
        assert(month_offset(11) == 337);
    } else {
        assert(month_offset(11) == 337);
    }
}

/// Later dates have larger day numbers.
pub proof fn lemma_day_number_increasing(a: (int, int, int), b: (int, int, int))
    requires
        valid_ymd(a.0, a.1, a.2),
        valid_ymd(b.0, b.1, b.2),
        date_lt(a, b),
    ensures
        day_number(a) < day_number(b),
{
    lemma_day_number_split(a);
    lemma_day_number_split(b);
    let yya = if a.1 <= 2 { a.0 - 1 } else { a.0 };
    let yyb = if b.1 <= 2 { b.0 - 1 } else { b.0 };
    let mpa = if a.1 > 2 { a.1 - 3 } else { a.1 + 9 };
    let mpb = if b.1 > 2 { b.1 - 3 } else { b.1 + 9 };
    assert(day_number(a) == year_days(yya) + day_of_year(a) - 719468);
    assert(day_number(b) == year_days(yyb) + day_of_year(b) - 719468);
    lemma_day_of_year(a);
    lemma_day_of_year(b);
    if yya == yyb {
        if mpa == mpb {
            assert(a.1 == b.1 && a.0 == b.0);
            assert(a.2 < b.2);
        } else {
            assert(mpa < mpb);
            lemma_month_offsets(mpa);
            assert(a.2 <= days_in_month(
                2001,
                if mpa <= 9 {
                    mpa + 3
                } else {
                    mpa - 9
                },
            ));
            assert(month_offset(mpa + 1) <= month_offset(mpb));
        }
    } else {
        assert(yya < yyb);
        if yya + 1 < yyb {
            lemma_year_days_step(yya + 1, yyb);
        }
        assert(year_days(yya + 1) <= year_days(yyb));
    }
}

/// Two valid dates are the same exactly when their day numbers are.
pub proof fn lemma_day_number_injective(a: (int, int, int), b: (int, int, int))
    requires
        valid_ymd(a.0, a.1, a.2),
        valid_ymd(b.0, b.1, b.2),
    ensures
        (day_number(a) == day_number(b)) == (a == b),
        date_lt(a, b) == (day_number(a) < day_number(b)),
{
    if date_lt(a, b) {
        lemma_day_number_increasing(a, b);
    } else if date_lt(b, a) {
        lemma_day_number_increasing(b, a);
    } else {
        assert(a == b);
    }
}

/// What `<NaiveDate as FromStr>::from_str` gives for a string with these
/// characters (year, month, day of the parsed date), a function of the
/// string alone.
pub uninterp spec fn naive_date_from_str(s: Seq<char>) -> Option<(int, int, int)>;

/// What `NaiveDate::parse_from_str(s, "%Y-%m-%d")` gives for a string with
/// these characters, a function of the string alone.
pub uninterp spec fn naive_date_parse_ymd(s: Seq<char>) -> Option<(int, int, int)>;

/// `s.parse::<NaiveDate>()`, as a `Date`; the rules of `chrono`'s
/// `FromStr` are not restated here.
#[verifier::external_body]
pub(crate) fn parse_date(s: &str) -> (r: Option<Date>)
    ensures
        match r {
            Some(d) => naive_date_from_str(s@) == Some(d@),
            None => naive_date_from_str(s@) is None,
        },
{
    let d = s.parse::<NaiveDate>().ok()?;
    Some(Date { year: d.year(), month: d.month(), day: d.day() })
}

/// `NaiveDate::parse_from_str(s, "%Y-%m-%d")`, as a `Date`; the rules of
/// `chrono`'s format parser are not restated here.
#[verifier::external_body]
pub(crate) fn parse_date_ymd(s: &str) -> (r: Option<Date>)
    ensures
        match r {
            Some(d) => naive_date_parse_ymd(s@) == Some(d@),
            None => naive_date_parse_ymd(s@) is None,
        },
{
    let d = NaiveDate::parse_from_str(s, "%Y-%m-%d").ok()?;
    Some(Date { year: d.year(), month: d.month(), day: d.day() })
}

} // verus!
