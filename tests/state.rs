use your_age::calendar::{Date, DateTime};
use your_age::query::QueryParams;
use your_age::state::{Action, State, Summary};

fn at(y: i32, m: u32, d: u32, hour: u32, minute: u32, second: u32) -> DateTime {
    DateTime { date: Date::from_ymd(y, m, d).unwrap(), hour, minute, second }
}

fn empty_state(now: DateTime) -> State {
    State::from_params(QueryParams { name: String::new(), birthday: None }, now)
}

#[test]
fn new_state_is_empty() {
    let s = State::new();
    assert_eq!(s.name, "");
    assert_eq!(s.birthday, None);
}

#[test]
fn tick_changes_only_the_time() {
    let s = State::from_params(
        QueryParams { name: "Ada".to_string(), birthday: Date::from_ymd(1815, 12, 10) },
        at(2000, 1, 1, 0, 0, 0),
    );
    let later = at(2000, 1, 1, 0, 0, 1);
    let (s, persist) = s.reduce(Action::Tick(later));
    assert_eq!(persist, None);
    assert_eq!(s.name, "Ada");
    assert_eq!(s.birthday, Date::from_ymd(1815, 12, 10));
    assert_eq!(s.current_time, later);
}

#[test]
fn invalid_birthday_text_gives_none() {
    let s = empty_state(at(2000, 1, 1, 0, 0, 0));
    let (s, persist) = s.reduce(Action::UpdateBirthday("1990-06-15".to_string()));
    assert_eq!(persist.as_deref(), Some("birthday=1990-06-15"));
    let (s, persist) = s.reduce(Action::UpdateBirthday("15/06/1990".to_string()));
    assert_eq!(s.birthday, None);
    assert_eq!(persist.as_deref(), Some(""));
    let (s, _) = s.reduce(Action::UpdateBirthday(String::new()));
    assert_eq!(s.birthday, None);
}

#[test]
fn name_without_birthday_asks_for_one() {
    let s = empty_state(at(2000, 1, 1, 0, 0, 0));
    assert!(matches!(s.summary(), Summary::Hidden));
    let (s, persist) = s.reduce(Action::UpdateName("Bob".to_string()));
    assert_eq!(persist.as_deref(), Some("name=Bob"));
    assert!(matches!(s.summary(), Summary::EnterBirthday));
}

#[test]
fn ada_one_day_old() {
    let s = empty_state(at(1990, 6, 15, 12, 0, 0));
    let (s, persist) = s.reduce(Action::UpdateName("Ada".to_string()));
    assert_eq!(persist.as_deref(), Some("name=Ada"));
    let (s, persist) = s.reduce(Action::UpdateBirthday("1990-06-15".to_string()));
    assert_eq!(persist.as_deref(), Some("name=Ada&birthday=1990-06-15"));
    let (s, persist) = s.reduce(Action::Tick(at(1990, 6, 16, 0, 0, 0)));
    assert_eq!(persist, None);
    match s.summary() {
        Summary::Age { breakdown, lines } => {
            assert_eq!(breakdown.days, 1);
            assert_eq!(lines[2].amount, "1");
            assert_eq!(lines[2].label, "day");
            assert_eq!(lines[2].text(), "1 day old");
        }
        _ => panic!("expected an age"),
    }
}
