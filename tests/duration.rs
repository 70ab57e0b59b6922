use your_age::calendar::{Date, DateTime};
use your_age::duration::{age_lines, compute, label, shown, Breakdown, TimeUnit};

fn date(y: i32, m: u32, d: u32) -> Date {
    Date::from_ymd(y, m, d).unwrap()
}

fn at(y: i32, m: u32, d: u32, hour: u32, minute: u32, second: u32) -> DateTime {
    DateTime { date: date(y, m, d), hour, minute, second }
}

#[test]
fn one_day_after_birth() {
    let b = compute(&date(2000, 1, 1), &at(2000, 1, 2, 0, 0, 0));
    assert_eq!(b.days, 1);
    assert_eq!(b.hours, 24);
    assert_eq!(b.minutes, 1440);
    assert_eq!(b.seconds, 86400);
    assert_eq!(b.years, 0);
    assert_eq!(b.months, 0);
}

#[test]
fn units_are_independent_truncations() {
    let b = compute(&date(2000, 1, 1), &at(2001, 3, 5, 10, 20, 30));
    assert_eq!(
        b,
        Breakdown {
            years: 1,
            months: 14,
            days: 429,
            hours: 10306,
            minutes: 618380,
            seconds: 37102830,
        }
    );
}

#[test]
fn birthday_ahead_gives_negative_values() {
    let b = compute(&date(2000, 1, 2), &at(2000, 1, 1, 12, 0, 0));
    assert_eq!(b.seconds, -43200);
    assert_eq!(b.minutes, -720);
    assert_eq!(b.hours, -12);
    assert_eq!(b.days, 0);
    assert_eq!(b.years, 0);
}

#[test]
fn later_now_never_decreases() {
    let birthday = date(1990, 6, 15);
    let times = [
        at(1990, 6, 14, 23, 59, 59),
        at(1990, 6, 15, 0, 0, 0),
        at(1990, 7, 15, 0, 0, 1),
        at(1991, 6, 15, 0, 0, 0),
        at(2024, 2, 29, 13, 45, 10),
    ];
    for pair in times.windows(2) {
        let a = compute(&birthday, &pair[0]);
        let b = compute(&birthday, &pair[1]);
        assert!(a.years <= b.years && a.months <= b.months && a.days <= b.days);
        assert!(a.hours <= b.hours && a.minutes <= b.minutes && a.seconds < b.seconds);
    }
}

#[test]
fn from_seconds_truncates_toward_zero() {
    let b = Breakdown::from_seconds(-86401);
    assert_eq!(b.days, -1);
    assert_eq!(b.hours, -24);
    assert_eq!(b.minutes, -1440);
}

#[test]
fn labels_drop_trailing_s_for_one() {
    assert_eq!(label(1, TimeUnit::Days), "day");
    assert_eq!(label(2, TimeUnit::Days), "days");
    assert_eq!(label(0, TimeUnit::Years), "years");
    assert_eq!(label(-1, TimeUnit::Seconds), "seconds");
    assert_eq!(label(1, TimeUnit::Minutes), "minute");
}

#[test]
fn shown_numbers_are_grouped() {
    assert_eq!(shown(37102830), "37,102,830");
    assert_eq!(shown(-43200), "-43,200");
    assert_eq!(shown(0), "0");
}

#[test]
fn lines_read_as_sentences() {
    let b = compute(&date(2000, 1, 1), &at(2000, 1, 2, 0, 0, 0));
    let lines: Vec<String> = age_lines(&b).iter().map(|l| l.text()).collect();
    assert_eq!(
        lines,
        vec![
            "0 years old",
            "0 months old",
            "1 day old",
            "24 hours old",
            "1,440 minutes old",
            "86,400 seconds old",
        ]
    );
}

#[test]
fn dates_are_checked() {
    assert!(Date::from_ymd(2000, 2, 29).is_some());
    assert!(Date::from_ymd(1900, 2, 29).is_none());
    assert!(Date::from_ymd(2023, 13, 1).is_none());
    assert!(Date::from_ymd(2023, 4, 31).is_none());
    assert!(Date::from_ymd(2023, 4, 0).is_none());
}

#[test]
fn iso_strings_are_zero_padded() {
    assert_eq!(date(1990, 6, 5).to_iso_string(), "1990-06-05");
    assert_eq!(date(12, 1, 1).to_iso_string(), "0012-01-01");
    assert_eq!(date(-44, 3, 15).to_iso_string(), "-0044-03-15");
    assert_eq!(date(10000, 12, 31).to_iso_string(), "+10000-12-31");
}
