//! Elapsed time since a birthday, in six independent units.
use vstd::arithmetic::div_mod::lemma_div_is_ordered;
use vstd::prelude::*;

use crate::calendar::{days_from_ce, Date, DateTime};
use crate::decimal::{decimal_text, to_decimal};
use crate::separators::{insert_separators, string_from_chars, with_separators_text};

verus! {

/// Integer division that rounds toward zero.
pub open spec fn trunc_div(a: int, b: int) -> int {
    if a >= 0 {
        a / b
    } else {
        -((-a) / b)
    }
}

/// Signed seconds from midnight at the start of `birthday` to `now`.
pub open spec fn elapsed_seconds(birthday: Date, now: DateTime) -> int {
    now.instant_seconds() - birthday.day_number() * 86400
}

pub open spec fn days_of(total: int) -> int {
    trunc_div(total, 86400)
}

/// Years of a fixed 365 days.
pub open spec fn years_of(total: int) -> int {
    trunc_div(days_of(total), 365)
}

/// Months of a fixed 30 days.
pub open spec fn months_of(total: int) -> int {
    trunc_div(days_of(total), 30)
}

pub open spec fn hours_of(total: int) -> int {
    trunc_div(total, 3600)
}

pub open spec fn minutes_of(total: int) -> int {
    trunc_div(total, 60)
}

/// One elapsed duration, truncated to each unit on its own: `hours` is the
/// whole duration in hours, not what remains after the days.
#[derive(Clone, Copy, Debug, PartialEq, Eq, Structural)]
pub struct Breakdown {
    pub years: i64,
    pub months: i64,
    pub days: i64,
    pub hours: i64,
    pub minutes: i64,
    pub seconds: i64,
}

impl Breakdown {
    /// This breakdown is the one of `total` seconds.
    pub open spec fn of_seconds(&self, total: int) -> bool {
        &&& self.years == years_of(total)
        &&& self.months == months_of(total)
        &&& self.days == days_of(total)
        &&& self.hours == hours_of(total)
        &&& self.minutes == minutes_of(total)
        &&& self.seconds == total
    }

    /// The breakdown of a signed number of seconds.
    pub fn from_seconds(total: i64) -> (r: Breakdown)
        requires
            total > i64::MIN,
        ensures
            r.of_seconds(total as int),
    {
        let days = trunc_div_exec(total, 86400);
        Breakdown {
            years: trunc_div_exec(days, 365),
            months: trunc_div_exec(days, 30),
            days,
            hours: trunc_div_exec(total, 3600),
            minutes: trunc_div_exec(total, 60),
            seconds: total,
        }
    }
}

fn trunc_div_exec(a: i64, b: i64) -> (r: i64)
    requires
        a > i64::MIN,
        b > 0,
    ensures
        r == trunc_div(a as int, b as int),
        r > i64::MIN,
{
    if a >= 0 {
        a / b
    } else {
        -((-a) / b)
    }
}

/// The time elapsed from midnight at the start of `birthday` until `now`;
/// negative when the birthday lies ahead.
pub fn compute(birthday: &Date, now: &DateTime) -> (r: Breakdown)
    requires
        birthday.wf(),
        now.wf(),
    ensures
        r.of_seconds(elapsed_seconds(*birthday, *now)),
{
    let from = days_from_ce(birthday) as i64;
    let to = days_from_ce(&now.date) as i64;
    let total: i64 = (to - from) * 86400 + (now.hour as i64) * 3600 + (now.minute as i64) * 60
        + (now.second as i64);
    Breakdown::from_seconds(total)
}

proof fn lemma_trunc_div_monotonic(a: int, b: int, d: int)
    requires
        a <= b,
        d > 0,
    ensures
        trunc_div(a, d) <= trunc_div(b, d),
{
    if a >= 0 {
        lemma_div_is_ordered(a, b, d);
    } else if b < 0 {
        lemma_div_is_ordered(-b, -a, d);
    } else {
        lemma_div_is_ordered(0, -a, d);
        lemma_div_is_ordered(0, b, d);
    }
}

/// For a fixed birthday, a later `now` never gives a smaller value in any
/// of the six units.
pub proof fn lemma_breakdown_monotonic(birthday: Date, earlier: DateTime, later: DateTime)
    requires
        birthday.wf(),
        earlier.wf(),
        later.wf(),
        earlier.instant_seconds() <= later.instant_seconds(),
    ensures
        years_of(elapsed_seconds(birthday, earlier)) <= years_of(elapsed_seconds(birthday, later)),
        months_of(elapsed_seconds(birthday, earlier)) <= months_of(
            elapsed_seconds(birthday, later),
        ),
        days_of(elapsed_seconds(birthday, earlier)) <= days_of(elapsed_seconds(birthday, later)),
        hours_of(elapsed_seconds(birthday, earlier)) <= hours_of(elapsed_seconds(birthday, later)),
        minutes_of(elapsed_seconds(birthday, earlier)) <= minutes_of(
            elapsed_seconds(birthday, later),
        ),
        elapsed_seconds(birthday, earlier) <= elapsed_seconds(birthday, later),
{
    let a = elapsed_seconds(birthday, earlier);
    let b = elapsed_seconds(birthday, later);
    lemma_trunc_div_monotonic(a, b, 86400);
    lemma_trunc_div_monotonic(days_of(a), days_of(b), 365);
    lemma_trunc_div_monotonic(days_of(a), days_of(b), 30);
    lemma_trunc_div_monotonic(a, b, 3600);
    lemma_trunc_div_monotonic(a, b, 60);
}

/// The units in which an age is shown.
#[derive(Clone, Copy, Debug, PartialEq, Eq, Structural)]
pub enum TimeUnit {
    Years,
    Months,
    Days,
    Hours,
    Minutes,
    Seconds,
}

/// The plural name of a unit.
pub open spec fn unit_name(u: TimeUnit) -> Seq<char> {
    match u {
        TimeUnit::Years => seq!['y', 'e', 'a', 'r', 's'],
        TimeUnit::Months => seq!['m', 'o', 'n', 't', 'h', 's'],
        TimeUnit::Days => seq!['d', 'a', 'y', 's'],
        TimeUnit::Hours => seq!['h', 'o', 'u', 'r', 's'],
        TimeUnit::Minutes => seq!['m', 'i', 'n', 'u', 't', 'e', 's'],
        TimeUnit::Seconds => seq!['s', 'e', 'c', 'o', 'n', 'd', 's'],
    }
}

/// The unit's name for `count` of it: the plural without its trailing `s`
/// when the count is exactly one.
pub open spec fn label_text(count: int, u: TimeUnit) -> Seq<char> {
    if count == 1 {
        unit_name(u).drop_last()
    } else {
        unit_name(u)
    }
}

/// A number as it is shown: in decimal, with grouping separators.
pub open spec fn shown_amount(n: int) -> Seq<char> {
    with_separators_text(decimal_text(n))
}

pub fn label(count: i64, unit: TimeUnit) -> (r: String)
    ensures
        r@ == label_text(count as int, unit),
{
    let plural: &str = match unit {
        TimeUnit::Years => {
            proof {
                reveal_strlit("years");
            }
            "years"
        },
        TimeUnit::Months => {
            proof {
                reveal_strlit("months");
            }
            "months"
        },
        TimeUnit::Days => {
            proof {
                reveal_strlit("days");
            }
            "days"
        },
        TimeUnit::Hours => {
            proof {
                reveal_strlit("hours");
            }
            "hours"
        },
        TimeUnit::Minutes => {
            proof {
                reveal_strlit("minutes");
            }
            "minutes"
        },
        TimeUnit::Seconds => {
            proof {
                reveal_strlit("seconds");
            }
            "seconds"
        },
    };
    assert(plural@ =~= unit_name(unit));
    let n = plural.unicode_len();
    if count == 1 {
        let r = String::from_str(plural.substring_char(0, n - 1));
        assert(r@ =~= label_text(count as int, unit));
        r
    } else {
        String::from_str(plural)
    }
}

/// A number in decimal with grouping separators.
pub fn shown(n: i64) -> (r: String)
    ensures
        r@ == shown_amount(n as int),
{
    insert_separators(string_from_chars(&to_decimal(n)))
}

/// One line of an age: the amount and the unit's label.
pub struct AgeLine {
    pub amount: String,
    pub label: String,
}

impl AgeLine {
    /// The line as a sentence, such as `1 day old`.
    pub fn text(&self) -> (r: String)
        ensures
            r@ == self.amount@ + seq![' '] + self.label@ + seq![' ', 'o', 'l', 'd'],
    {
        let mut r = String::new();
        r.append(self.amount.as_str());
        proof {
            reveal_strlit(" ");
            reveal_strlit(" old");
        }
        r.append(" ");
        r.append(self.label.as_str());
        r.append(" old");
        assert(r@ =~= self.amount@ + seq![' '] + self.label@ + seq![' ', 'o', 'l', 'd']);
        r
    }
}

/// The line shown for `count` of `unit`.
pub fn age_line(count: i64, unit: TimeUnit) -> (r: AgeLine)
    ensures
        r.amount@ == shown_amount(count as int),
        r.label@ == label_text(count as int, unit),
{
    AgeLine { amount: shown(count), label: label(count, unit) }
}

/// `lines` shows `b`: one line per unit, from years down to seconds.
pub open spec fn shows(lines: Seq<AgeLine>, b: Breakdown) -> bool {
    &&& lines.len() == 6
    &&& lines[0].amount@ == shown_amount(b.years as int)
    &&& lines[0].label@ == label_text(b.years as int, TimeUnit::Years)
    &&& lines[1].amount@ == shown_amount(b.months as int)
    &&& lines[1].label@ == label_text(b.months as int, TimeUnit::Months)
    &&& lines[2].amount@ == shown_amount(b.days as int)
    &&& lines[2].label@ == label_text(b.days as int, TimeUnit::Days)
    &&& lines[3].amount@ == shown_amount(b.hours as int)
    &&& lines[3].label@ == label_text(b.hours as int, TimeUnit::Hours)
    &&& lines[4].amount@ == shown_amount(b.minutes as int)
    &&& lines[4].label@ == label_text(b.minutes as int, TimeUnit::Minutes)
    &&& lines[5].amount@ == shown_amount(b.seconds as int)
    &&& lines[5].label@ == label_text(b.seconds as int, TimeUnit::Seconds)
}

/// The six lines of an age, from years down to seconds.
pub fn age_lines(b: &Breakdown) -> (r: Vec<AgeLine>)
    ensures
        shows(r@, *b),
{
    let mut r: Vec<AgeLine> = Vec::new();
    r.push(age_line(b.years, TimeUnit::Years));
    r.push(age_line(b.months, TimeUnit::Months));
    r.push(age_line(b.days, TimeUnit::Days));
    r.push(age_line(b.hours, TimeUnit::Hours));
    r.push(age_line(b.minutes, TimeUnit::Minutes));
    r.push(age_line(b.seconds, TimeUnit::Seconds));
    r
}

} // verus!
