use your_age::decimal::to_decimal;
use your_age::separators::{IntersperseChunks, WithSeparators};

#[test]
fn insert_separators() {
    let strings = [
        ("30", "30"),
        ("374", "374"),
        ("11232", "11,232"),
        ("269568", "269,568"),
        ("16174080", "16,174,080"),
        ("970444800", "970,444,800"),
    ];

    for (input, output) in strings {
        assert_eq!(output, your_age::separators::insert_separators(input.into()));
    }
}

#[test]
fn thousand_gets_one_separator() {
    assert_eq!(your_age::separators::insert_separators("1000".to_string()), "1,000");
    assert_eq!(your_age::separators::insert_separators("30".to_string()), "30");
    assert_eq!(your_age::separators::insert_separators("16174080".to_string()), "16,174,080");
}

#[test]
fn separator_count_follows_length() {
    let digits = "12345678901234567890";
    for len in 1..=digits.len() {
        let out = your_age::separators::insert_separators(digits[..len].to_string());
        let commas = out.chars().filter(|c| *c == ',').count();
        assert_eq!(commas, (len - 1) / 3, "for {} digits", len);
        assert_eq!(out.len(), len + commas);
    }
}

#[test]
fn empty_and_short_strings_are_unchanged() {
    assert_eq!(your_age::separators::insert_separators(String::new()), "");
    assert_eq!(your_age::separators::insert_separators("7".to_string()), "7");
    assert_eq!(your_age::separators::insert_separators("999".to_string()), "999");
}

#[test]
fn minus_sign_stays_in_front() {
    assert_eq!(your_age::separators::insert_separators("-1000".to_string()), "-1,000");
    assert_eq!(your_age::separators::insert_separators("-100".to_string()), "-100");
    assert_eq!(your_age::separators::insert_separators("-16174080".to_string()), "-16,174,080");
}

#[test]
fn with_separators_on_string() {
    assert_eq!("1234567".to_string().with_separators(), "1,234,567");
}

#[test]
fn intersperse_chunks_hands_out_separators() {
    let mut it = IntersperseChunks::new("abcdefg".chars().collect(), '|', 2);
    let mut out = String::new();
    while let Some(c) = it.next() {
        out.push(c);
    }
    assert_eq!(out, "ab|cd|ef|g");
    assert_eq!(it.next(), None);
}

#[test]
fn decimal_writes_sign_and_digits() {
    let text = |n: i64| to_decimal(n).into_iter().collect::<String>();
    assert_eq!(text(0), "0");
    assert_eq!(text(42), "42");
    assert_eq!(text(-7), "-7");
    assert_eq!(text(i64::MAX), "9223372036854775807");
    assert_eq!(text(i64::MIN), "-9223372036854775808");
}
