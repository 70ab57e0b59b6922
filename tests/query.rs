use your_age::calendar::Date;
use your_age::query::{join_query, QueryParams};

fn date(y: i32, m: u32, d: u32) -> Date {
    Date::from_ymd(y, m, d).unwrap()
}

fn params(name: &str, birthday: Option<Date>) -> QueryParams {
    QueryParams { name: name.to_string(), birthday }
}

#[test]
fn decode_example_query() {
    let p = QueryParams::decode("?name=Ada&birthday=1815-12-10");
    assert_eq!(p.name, "Ada");
    assert_eq!(p.birthday, Some(date(1815, 12, 10)));
}

#[test]
fn round_trip_keeps_both_fields() {
    let p = params("Ada", Some(date(1815, 12, 10)));
    let q = p.encode();
    assert_eq!(q, "name=Ada&birthday=1815-12-10");
    let back = QueryParams::decode(&q);
    assert_eq!(back.name, p.name);
    assert_eq!(back.birthday, p.birthday);
}

#[test]
fn round_trip_with_encoded_characters() {
    let p = params("Ada Lovelace & Co=é", Some(date(12345, 1, 2)));
    let q = p.encode();
    assert_eq!(q, "name=Ada+Lovelace+%26+Co%3D%C3%A9&birthday=%2B12345-01-02");
    let back = QueryParams::decode(&q);
    assert_eq!(back.name, p.name);
    assert_eq!(back.birthday, p.birthday);
}

#[test]
fn round_trip_early_years() {
    for d in [date(0, 1, 1), date(-1, 12, 31), date(99, 3, 4)] {
        let p = params("x", Some(d));
        let back = QueryParams::decode(&p.encode());
        assert_eq!(back.birthday, Some(d));
    }
    assert_eq!(params("", Some(date(99, 3, 4))).encode(), "birthday=0099-03-04");
    assert_eq!(params("", Some(date(-1, 12, 31))).encode(), "birthday=-0001-12-31");
}

#[test]
fn empty_fields_are_omitted() {
    assert_eq!(params("", None).encode(), "");
    assert_eq!(params("Bob", None).encode(), "name=Bob");
    assert_eq!(params("", Some(date(2000, 1, 1))).encode(), "birthday=2000-01-01");
    let p = QueryParams::decode("");
    assert_eq!(p.name, "");
    assert_eq!(p.birthday, None);
}

#[test]
fn leading_question_mark_is_ignored() {
    let a = QueryParams::decode("?name=Bob");
    let b = QueryParams::decode("name=Bob");
    assert_eq!(a.name, "Bob");
    assert_eq!(a.name, b.name);
    assert_eq!(a.birthday, b.birthday);
}

#[test]
fn bad_birthday_is_absent() {
    let p = QueryParams::decode("name=Bob&birthday=not-a-date");
    assert_eq!(p.name, "Bob");
    assert_eq!(p.birthday, None);
    assert_eq!(QueryParams::decode("birthday=2023-02-30").birthday, None);
}

#[test]
fn last_of_repeated_keys_wins() {
    let p = QueryParams::decode("name=A&name=B&&birthday=2000-01-01&birthday=2001-02-03");
    assert_eq!(p.name, "B");
    assert_eq!(p.birthday, Some(date(2001, 2, 3)));
}

#[test]
fn percent_escapes_are_decoded() {
    assert_eq!(QueryParams::decode("name=A%C3%A9+B").name, "Aé B");
}

#[test]
fn from_pairs_reads_the_keys() {
    let pairs = vec![
        ("other".to_string(), "1".to_string()),
        ("birthday".to_string(), "1990-06-15".to_string()),
        ("name".to_string(), "Ada".to_string()),
    ];
    let p = QueryParams::from_pairs(&pairs);
    assert_eq!(p.name, "Ada");
    assert_eq!(p.birthday, Some(date(1990, 6, 15)));
}

#[test]
fn join_query_places_separators() {
    assert_eq!(join_query(None, None), "");
    assert_eq!(join_query(Some("Ada+L".to_string()), None), "name=Ada+L");
    assert_eq!(join_query(None, Some("2000-01-01".to_string())), "birthday=2000-01-01");
    assert_eq!(
        join_query(Some("x".to_string()), Some("%2B12345-01-02".to_string())),
        "name=x&birthday=%2B12345-01-02"
    );
}
