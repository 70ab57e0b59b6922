//! Calendar dates and local date-times, as plain values.
use chrono::{Datelike, Timelike};
use vstd::prelude::*;

use crate::decimal::{
    digits, lemma_digits_are_digits, lemma_value_of_padded, padded, value_of,
};

verus! {

/// The earliest year that a date can have.
pub const MIN_YEAR: i32 = -262143;

/// The latest year that a date can have.
pub const MAX_YEAR: i32 = 262142;

pub open spec fn is_leap_year(y: int) -> bool {
    (y % 4 == 0 && y % 100 != 0) || y % 400 == 0
}

pub open spec fn days_in_month(y: int, m: int) -> int {
    if m == 2 {
        if is_leap_year(y) {
            29
        } else {
            28
        }
    } else if m == 4 || m == 6 || m == 9 || m == 11 {
        30
    } else {
        31
    }
}

/// Days of the year `y` before the first of month `m`.
pub open spec fn days_before_month(y: int, m: int) -> int {
    let common: int = if m <= 1 {
        0
    } else if m == 2 {
        31
    } else if m == 3 {
        59
    } else if m == 4 {
        90
    } else if m == 5 {
        120
    } else if m == 6 {
        151
    } else if m == 7 {
        181
    } else if m == 8 {
        212
    } else if m == 9 {
        243
    } else if m == 10 {
        273
    } else if m == 11 {
        304
    } else {
        334
    };
    common + if m > 2 && is_leap_year(y) {
        1int
    } else {
        0int
    }
}

/// Days of the proleptic Gregorian calendar before January 1 of year `y`,
/// counted from January 1 of year 1.
pub open spec fn days_before_year(y: int) -> int {
    let p = y - 1;
    365 * p + p / 4 - p / 100 + p / 400
}

/// The day number of a date, January 1 of year 1 being day 1.
pub open spec fn day_number(y: int, m: int, d: int) -> int {
    days_before_year(y) + days_before_month(y, m) + d
}

/// The year as `%Y` writes it: four digits for years 0 to 9999, and
/// otherwise a sign and at least four digits.
pub open spec fn year_text(y: int) -> Seq<char> {
    if 0 <= y <= 9999 {
        padded(y as nat, 4)
    } else if y > 0 {
        seq!['+'] + padded(y as nat, 4)
    } else {
        seq!['-'] + padded((-y) as nat, 4)
    }
}

/// A calendar date of the proleptic Gregorian calendar, without time of day.
#[derive(Clone, Copy, Debug, PartialEq, Eq, Structural)]
pub struct Date {
    pub year: i32,
    pub month: u32,
    pub day: u32,
}

/// A date with a time of day, to the second.
#[derive(Clone, Copy, Debug, PartialEq, Eq, Structural)]
pub struct DateTime {
    pub date: Date,
    pub hour: u32,
    pub minute: u32,
    pub second: u32,
}

/// The date in ISO 8601 form, `YYYY-MM-DD`.
pub open spec fn iso_text(d: Date) -> Seq<char> {
    year_text(d.year as int) + seq!['-'] + padded(d.month as nat, 2) + seq!['-'] + padded(
        d.day as nat,
        2,
    )
}

/// What chrono's `%F` parser makes of a text: year, month and day.
pub uninterp spec fn parsed_iso_date(s: Seq<char>) -> Option<(int, int, int)>;

/// The date that a text stands for: the date whose ISO form it is, and
/// otherwise whatever the parser accepts in it.
pub open spec fn date_of_text(s: Seq<char>) -> Option<Date> {
    if exists|d: Date| d.wf() && iso_text(d) == s {
        Some(choose|d: Date| d.wf() && iso_text(d) == s)
    } else {
        match parsed_iso_date(s) {
            Some((y, m, d)) => Some(Date { year: y as i32, month: m as u32, day: d as u32 }),
            None => None,
        }
    }
}

impl Date {
    /// A real day of the calendar, in the range that dates can take.
    pub open spec fn wf(&self) -> bool {
        &&& MIN_YEAR <= self.year <= MAX_YEAR
        &&& 1 <= self.month <= 12
        &&& 1 <= self.day <= days_in_month(self.year as int, self.month as int)
    }

    pub open spec fn day_number(&self) -> int {
        day_number(self.year as int, self.month as int, self.day as int)
    }

    /// The date with this year, month and day, if there is one.
    pub fn from_ymd(year: i32, month: u32, day: u32) -> (r: Option<Date>)
        ensures
            r is Some <==> (Date { year, month, day }).wf(),
            r is Some ==> r == Some(Date { year, month, day }),
    {
        if year < MIN_YEAR || year > MAX_YEAR || month < 1 || month > 12 || day < 1 {
            return None;
        }
        let leap = (year % 4 == 0 && year % 100 != 0) || year % 400 == 0;
        let last: u32 = if month == 2 {
            if leap {
                29
            } else {
                28
            }
        } else if month == 4 || month == 6 || month == 9 || month == 11 {
            30
        } else {
            31
        };
        if day > last {
            None
        } else {
            Some(Date { year, month, day })
        }
    }
}

impl Date {
    /// The date as `YYYY-MM-DD`.
    pub fn to_iso_string(&self) -> (r: String)
        requires
            self.wf(),
        ensures
            r@ == iso_text(*self),
    {
        format_iso(self)
    }
}

impl DateTime {
    pub open spec fn wf(&self) -> bool {
        &&& self.date.wf()
        &&& self.hour < 24
        &&& self.minute < 60
        &&& self.second < 60
    }

    /// Seconds since the start of day 0 of the calendar.
    pub open spec fn instant_seconds(&self) -> int {
        self.date.day_number() * 86400 + self.hour * 3600 + self.minute * 60 + self.second
    }
}

pub open spec fn power_of_ten(k: nat) -> nat
    decreases k,
{
    if k == 0 {
        1
    } else {
        10 * power_of_ten((k - 1) as nat)
    }
}

proof fn lemma_digits_fit(n: nat, k: nat)
    requires
        k >= 1,
        n < power_of_ten(k),
    ensures
        digits(n).len() <= k,
    decreases k,
{
    if n >= 10 {
        assert(k >= 2) by {
            if k == 1 {
                assert(power_of_ten(1) == 10 * power_of_ten(0));
            }
        };
        assert(n / 10 < power_of_ten((k - 1) as nat));
        lemma_digits_fit(n / 10, (k - 1) as nat);
    }
}

/// A zero-padded number that fits its width is exactly that wide, and made
/// of digits.
proof fn lemma_padded_shape(n: nat, w: nat)
    requires
        w >= 1,
        n < power_of_ten(w),
    ensures
        padded(n, w).len() == w,
        forall|i: int| 0 <= i < w ==> '0' <= #[trigger] padded(n, w)[i] <= '9',
{
    lemma_digits_fit(n, w);
    lemma_digits_are_digits(n);
    let d = digits(n);
    let p = padded(n, w);
    if d.len() < w {
        let z = Seq::new((w - d.len()) as nat, |i: int| '0');
        assert forall|i: int| 0 <= i < w implies '0' <= #[trigger] p[i] <= '9' by {
            if i >= z.len() {
                assert(p[i] == d[i - z.len()]);
            }
        };
    }
}

/// Padded to width `w`, every number is at least `w` digits long.
proof fn lemma_padded_digits(n: nat, w: nat)
    ensures
        padded(n, w).len() >= w,
        padded(n, w).len() >= 1,
        forall|i: int| 0 <= i < padded(n, w).len() ==> '0' <= #[trigger] padded(n, w)[i] <= '9',
{
    lemma_digits_are_digits(n);
    let d = digits(n);
    let p = padded(n, w);
    if d.len() < w {
        let z = Seq::new((w - d.len()) as nat, |i: int| '0');
        assert forall|i: int| 0 <= i < p.len() implies '0' <= #[trigger] p[i] <= '9' by {
            if i >= z.len() {
                assert(p[i] == d[i - z.len()]);
            }
        };
    }
}

proof fn lemma_year_text_injective(a: int, b: int)
    requires
        year_text(a) == year_text(b),
    ensures
        a == b,
{
    let t = year_text(a);
    if 0 <= a <= 9999 {
        lemma_padded_digits(a as nat, 4);
        assert('0' <= t[0] <= '9');
    }
    if 0 <= b <= 9999 {
        lemma_padded_digits(b as nat, 4);
        assert('0' <= t[0] <= '9');
    }
    if 0 <= a <= 9999 && 0 <= b <= 9999 {
        lemma_value_of_padded(a as nat, 4);
        lemma_value_of_padded(b as nat, 4);
    } else if a > 9999 && b > 9999 {
        assert(t.drop_first() =~= padded(a as nat, 4));
        assert(year_text(b).drop_first() =~= padded(b as nat, 4));
        lemma_value_of_padded(a as nat, 4);
        lemma_value_of_padded(b as nat, 4);
    } else if a < 0 && b < 0 {
        assert(t.drop_first() =~= padded((-a) as nat, 4));
        assert(year_text(b).drop_first() =~= padded((-b) as nat, 4));
        lemma_value_of_padded((-a) as nat, 4);
        lemma_value_of_padded((-b) as nat, 4);
    } else {
        assert(t[0] != year_text(b)[0]);
    }
}

/// Two real dates with the same ISO form are the same date.
pub proof fn lemma_iso_text_injective(a: Date, b: Date)
    requires
        a.wf(),
        b.wf(),
        iso_text(a) == iso_text(b),
    ensures
        a == b,
{
    assert(power_of_ten(2) == 100) by {
        reveal_with_fuel(power_of_ten, 3);
    };
    lemma_padded_shape(a.month as nat, 2);
    lemma_padded_shape(b.month as nat, 2);
    lemma_padded_shape(a.day as nat, 2);
    lemma_padded_shape(b.day as nat, 2);
    let t = iso_text(a);
    let ya = year_text(a.year as int);
    let yb = year_text(b.year as int);
    let k = ya.len() as int;
    assert(t.len() == k + 6);
    assert(iso_text(b).len() == yb.len() + 6);
    assert(yb.len() == k);
    assert(t.take(k) =~= ya);
    assert(iso_text(b).take(k) =~= yb);
    lemma_year_text_injective(a.year as int, b.year as int);
    assert(t.subrange(k + 1, k + 3) =~= padded(a.month as nat, 2));
    assert(iso_text(b).subrange(k + 1, k + 3) =~= padded(b.month as nat, 2));
    assert(t.subrange(k + 4, k + 6) =~= padded(a.day as nat, 2));
    assert(iso_text(b).subrange(k + 4, k + 6) =~= padded(b.day as nat, 2));
    lemma_value_of_padded(a.month as nat, 2);
    lemma_value_of_padded(b.month as nat, 2);
    lemma_value_of_padded(a.day as nat, 2);
    lemma_value_of_padded(b.day as nat, 2);
}

/// A real date's ISO form reads back as that date.
pub proof fn lemma_date_of_iso_text(d: Date)
    requires
        d.wf(),
    ensures
        date_of_text(iso_text(d)) == Some(d),
{
    let t = iso_text(d);
    assert(d.wf() && iso_text(d) == t);
    let c = choose|e: Date| e.wf() && iso_text(e) == t;
    lemma_iso_text_injective(c, d);
}

/// Up to year 9999 the ISO form is made of digits and minus signs.
pub proof fn lemma_iso_text_chars(d: Date)
    requires
        d.wf(),
        d.year <= 9999,
    ensures
        forall|i: int|
            0 <= i < iso_text(d).len() ==> #[trigger] iso_text(d)[i] == '-' || ('0' <= iso_text(
                d,
            )[i] <= '9'),
{
    let y = d.year as int;
    lemma_padded_digits(d.month as nat, 2);
    lemma_padded_digits(d.day as nat, 2);
    let m = padded(d.month as nat, 2);
    let dd = padded(d.day as nat, 2);
    let yt = year_text(y);
    if y >= 0 {
        lemma_padded_digits(y as nat, 4);
    } else {
        lemma_padded_digits((-y) as nat, 4);
        assert forall|i: int| 1 <= i < yt.len() implies '0' <= #[trigger] yt[i] <= '9' by {
            assert(yt[i] == padded((-y) as nat, 4)[i - 1]);
        };
    }
    let t = iso_text(d);
    assert forall|i: int| 0 <= i < t.len() implies #[trigger] t[i] == '-' || ('0' <= t[i] <= '9') by {
        let k = yt.len() as int;
        if i < k {
            assert(t[i] == yt[i]);
        } else if i == k || i == k + 1 + m.len() {
        } else if i < k + 1 + m.len() {
            assert(t[i] == m[i - k - 1]);
        } else {
            assert(t[i] == dd[i - k - 2 - m.len()]);
        }
    };
}

/// Relies on chrono's `NaiveDate::from_ymd_opt` and `Datelike::num_days_from_ce`:
/// the count of days of the proleptic Gregorian calendar, January 1 of
/// year 1 being day 1.
#[verifier::external_body]
pub(crate) fn days_from_ce(d: &Date) -> (r: i32)
    requires
        d.wf(),
    ensures
        r as int == d.day_number(),
{
    chrono::NaiveDate::from_ymd_opt(d.year, d.month, d.day).unwrap().num_days_from_ce()
}

/// Relies on chrono's `NaiveDate::format` with `%F`: year, month and day
/// as `%Y-%m-%d`, month and day in two digits.
#[verifier::external_body]
pub(crate) fn format_iso(d: &Date) -> (r: String)
    requires
        d.wf(),
    ensures
        r@ == iso_text(*d),
{
    chrono::NaiveDate::from_ymd_opt(d.year, d.month, d.day).unwrap().format("%F").to_string()
}

/// Relies on chrono's `NaiveDate::parse_from_str` with `%F`: it reads back
/// every text that `%F` writes, and any date it returns is a real one.
#[verifier::external_body]
pub(crate) fn parse_iso(s: &str) -> (r: Option<Date>)
    ensures
        r == date_of_text(s@),
        r is None ==> parsed_iso_date(s@) is None,
        r matches Some(d) ==> d.wf(),
{
    match chrono::NaiveDate::parse_from_str(s, "%F") {
        Ok(n) => Some(Date { year: n.year(), month: n.month(), day: n.day() }),
        Err(_) => None,
    }
}

/// Relies on chrono's `Local::now`: the local date and time, truncated to
/// the second.
#[verifier::external_body]
pub(crate) fn now_local() -> (r: DateTime)
    ensures
        r.wf(),
{
    let t = chrono::Local::now().naive_local();
    DateTime {
        date: Date { year: t.year(), month: t.month(), day: t.day() },
        hour: t.hour(),
        minute: t.minute(),
        second: t.second(),
    }
}

} // verus!
