use photocat::meta::{i64_text, u64_text, MetaValue, UtcDateTime};

#[test]
fn integer_texts() {
    assert_eq!(u64_text(0), "0");
    assert_eq!(u64_text(7), "7");
    assert_eq!(u64_text(10), "10");
    assert_eq!(u64_text(u64::MAX), u64::MAX.to_string());
    assert_eq!(i64_text(-3), "-3");
    assert_eq!(i64_text(i64::MIN), i64::MIN.to_string());
    assert_eq!(i64_text(i64::MAX), i64::MAX.to_string());
    assert_eq!(i64_text(120), "120");
}

#[test]
fn value_texts_and_kinds() {
    let date = UtcDateTime::new(2022, 9, 5, 23, 56, 4, 0).unwrap();
    let cases = vec![
        (MetaValue::String(String::from("abc")), "abc", "String"),
        (MetaValue::Int(-42), "-42", "Int"),
        (MetaValue::UInt(42), "42", "UInt"),
        (MetaValue::Float(String::from("1.5")), "1.5", "Float"),
        (MetaValue::Bool(true), "true", "Bool"),
        (MetaValue::Bool(false), "false", "Bool"),
        (MetaValue::Date(date), "2022-09-05 23:56:04 UTC", "Date"),
        (MetaValue::Null, "NULL", "Null"),
    ];
    for (value, text, kind) in cases {
        assert_eq!(value.to_text(), text);
        assert_eq!(value.string_type(), kind);
        assert_eq!(value.clone_value(), value);
    }
}

#[test]
fn date_validity() {
    assert!(UtcDateTime::new(2024, 2, 29, 0, 0, 0, 0).is_some());
    assert!(UtcDateTime::new(2023, 2, 29, 0, 0, 0, 0).is_none());
    assert!(UtcDateTime::new(1900, 2, 29, 0, 0, 0, 0).is_none());
    assert!(UtcDateTime::new(2000, 2, 29, 0, 0, 0, 0).is_some());
    assert!(UtcDateTime::new(-4, 2, 29, 0, 0, 0, 0).is_some());
    assert!(UtcDateTime::new(2022, 4, 31, 0, 0, 0, 0).is_none());
    assert!(UtcDateTime::new(2022, 13, 1, 0, 0, 0, 0).is_none());
    assert!(UtcDateTime::new(2022, 1, 0, 0, 0, 0, 0).is_none());
    assert!(UtcDateTime::new(2022, 1, 1, 24, 0, 0, 0).is_none());
    assert!(UtcDateTime::new(2022, 1, 1, 23, 59, 59, 1_500_000_000).is_some());
    assert!(UtcDateTime::new(2022, 1, 1, 23, 59, 58, 1_500_000_000).is_none());
    assert!(UtcDateTime::new(262142, 12, 31, 0, 0, 0, 0).is_some());
    assert!(UtcDateTime::new(262143, 1, 1, 0, 0, 0, 0).is_none());
    assert!(UtcDateTime::new(-262143, 1, 1, 0, 0, 0, 0).is_some());
    assert!(UtcDateTime::new(-262144, 1, 1, 0, 0, 0, 0).is_none());
}

#[test]
fn date_text_with_fraction() {
    let date = UtcDateTime::new(2022, 1, 1, 3, 4, 5, 500_000_000).unwrap();
    assert_eq!(MetaValue::Date(date).to_text(), "2022-01-01 03:04:05.500 UTC");
}

#[test]
fn date_texts_of_unusual_years_and_leap_seconds() {
    let far = UtcDateTime::new(12345, 1, 1, 0, 0, 0, 0).unwrap();
    assert_eq!(MetaValue::Date(far).to_text(), "+12345-01-01 00:00:00 UTC");
    let early = UtcDateTime::new(-5, 2, 1, 23, 59, 59, 1_500_000_000).unwrap();
    assert_eq!(MetaValue::Date(early).to_text(), "-0005-02-01 23:59:60.500 UTC");
    let micro = UtcDateTime::new(99, 12, 31, 1, 2, 3, 4_000).unwrap();
    assert_eq!(MetaValue::Date(micro).to_text(), "0099-12-31 01:02:03.000004 UTC");
    let nano = UtcDateTime::new(2000, 1, 1, 0, 0, 0, 7).unwrap();
    assert_eq!(MetaValue::Date(nano).to_text(), "2000-01-01 00:00:00.000000007 UTC");
}
