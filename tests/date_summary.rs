use photocat::date_summary::DateSummary;
use photocat::meta::{IndexFile, MetaValue, MetaVariable, UtcDateTime};

fn date(y: i32, m: u32, d: u32, h: u32) -> UtcDateTime {
    UtcDateTime::new(y, m, d, h, 56, 4, 0).unwrap()
}

fn file(created: UtcDateTime, meta: Vec<MetaVariable>) -> IndexFile {
    IndexFile {
        filename: String::from("/photos/a.jpg"),
        url: String::from("file:///photos/a.jpg"),
        sha256: String::from("00"),
        created_at: created,
        modified_at: created,
        meta,
    }
}

#[test]
fn dates_are_counted_per_day() {
    let mut summary = DateSummary::new();
    summary.add_date(&date(2022, 9, 5, 23));
    for _ in 1..10 {
        summary.add_date(&date(2022, 1, 1, 23));
    }
    summary.add_date(&date(2022, 1, 1, 23));
    summary.add_date(&date(2022, 9, 5, 0));
    summary.add_date(&date(2022, 3, 3, 3));
    summary.add_date(&date(2022, 12, 31, 12));
    assert_eq!(summary.count, 14);
    assert_eq!(summary.dates.len(), 4);
    assert_eq!(summary.dates[&20220905], 2);
    assert_eq!(summary.dates[&20220101], 10);
    assert_eq!(summary.dates[&20220303], 1);
    assert_eq!(summary.dates[&20221231], 1);
    assert_eq!(summary.months_per_row, None);
}

#[test]
fn wrapping_summary_keeps_its_row_width() {
    let mut summary = DateSummary::new_wrapping(4);
    assert_eq!(summary.months_per_row, Some(4));
    summary.add_date(&date(-5, 2, 1, 0));
    assert_eq!(summary.dates[&-49799], 1);
    assert_eq!(summary.count, 1);
}

#[test]
fn date_taken_wins_over_creation_date() {
    let mut summary = DateSummary::new();
    let taken = MetaVariable { name: String::from("DateTaken"), value: MetaValue::Date(date(2021, 6, 7, 8)) };
    let other = MetaVariable { name: String::from("Make"), value: MetaValue::String(String::from("X")) };
    summary.add_fileindex(&file(date(2023, 1, 2, 3), vec![other.clone(), taken]));
    assert_eq!(summary.dates[&20210607], 1);
    assert_eq!(summary.exif_dates, 1);
    assert_eq!(summary.file_dates, 0);

    summary.add_fileindex(&file(date(2023, 1, 2, 3), vec![other]));
    assert_eq!(summary.dates[&20230102], 1);
    assert_eq!(summary.exif_dates, 1);
    assert_eq!(summary.file_dates, 1);

    let not_a_date = MetaVariable { name: String::from("DateTaken"), value: MetaValue::String(String::from("2020")) };
    summary.add_fileindex(&file(date(2023, 1, 2, 3), vec![not_a_date]));
    assert_eq!(summary.dates[&20230102], 2);
    assert_eq!(summary.file_dates, 2);
    assert_eq!(summary.count, 3);
}
