use photocat::meta::{IndexFile, MetaValue, MetaVariable, UtcDateTime};
use photocat::summary::SummaryStats;

fn file(meta: Vec<MetaVariable>) -> IndexFile {
    let created = UtcDateTime::new(2022, 5, 6, 7, 8, 9, 0).unwrap();
    IndexFile {
        filename: String::from("/p/b.jpg"),
        url: String::from("file:///p/b.jpg"),
        sha256: String::from("11"),
        created_at: created,
        modified_at: created,
        meta,
    }
}

#[test]
fn no_options_gives_a_plain_calendar() {
    let s = SummaryStats::new(&None);
    assert_eq!(s.dates.months_per_row, None);
    assert!(s.counters.is_empty());
}

#[test]
fn options_are_split_and_trimmed() {
    let s = SummaryStats::new(&Some(String::from(" wrap ; count:Model,ISO;count:Lens ;other")));
    assert_eq!(s.dates.months_per_row, Some(8));
    assert_eq!(s.counters.len(), 2);
    assert_eq!(s.counters[0].variables, vec!["ISO", "Model"]);
    assert_eq!(s.counters[1].variables, vec!["Lens"]);
}

#[test]
fn wrap_must_stand_alone() {
    let s = SummaryStats::new(&Some(String::from("wrapped;count:")));
    assert_eq!(s.dates.months_per_row, None);
    assert_eq!(s.counters.len(), 1);
    assert_eq!(s.counters[0].variables, vec![""]);
}

#[test]
fn files_reach_every_summary() {
    let mut s = SummaryStats::new(&Some(String::from("count:Make")));
    let f = file(vec![MetaVariable { name: String::from("Make"), value: MetaValue::String(String::from("X")) }]);
    assert!(s.can_add(&f));
    s.add(&f);
    s.add(&f);
    assert_eq!(s.dates.count, 2);
    assert_eq!(s.dates.dates[&20220506], 2);
    assert_eq!(s.dates.file_dates, 2);
    assert_eq!(s.counters[0].counts, vec![(String::from("Make:String:X"), 2)]);
}

#[test]
fn unicode_white_space_is_trimmed() {
    let s = SummaryStats::new(&Some(String::from("\u{3000}wrap\u{a0};\tcount:X\n")));
    assert_eq!(s.dates.months_per_row, Some(8));
    assert_eq!(s.counters[0].variables, vec!["X"]);
}
