use photocat::date_summary::DateSummary;
use photocat::grid::HeadingPart::{Gap, Month, Year};
use photocat::grid::{shade, GridCell};
use photocat::meta::UtcDateTime;

fn add(summary: &mut DateSummary, y: i32, m: u32, d: u32, times: usize) {
    let date = UtcDateTime::new(y, m, d, 12, 0, 0, 0).unwrap();
    for _ in 0..times {
        summary.add_date(&date);
    }
}

fn sample(summary: &mut DateSummary) {
    add(summary, 2022, 9, 5, 2);
    add(summary, 2022, 1, 1, 10);
    add(summary, 2022, 3, 3, 1);
    add(summary, 2022, 12, 31, 1);
}

#[test]
fn empty_summary_has_no_grid() {
    assert!(DateSummary::new().grid().is_none());
}

#[test]
fn one_year_in_one_row() {
    let mut summary = DateSummary::new();
    sample(&mut summary);
    let rows = summary.grid().unwrap();
    assert_eq!(rows.len(), 1);
    let row = &rows[0];
    assert_eq!(row.cells.len(), 365);
    assert_eq!(row.cells[0], GridCell { column: 0, weekday: 6, count: 10 });
    assert_eq!(row.cells[1], GridCell { column: 1, weekday: 0, count: 0 });
    assert_eq!(row.cells[61].count, 1);
    assert_eq!(row.cells[247].count, 2);
    assert_eq!(row.cells[364], GridCell { column: 52, weekday: 6, count: 1 });
    assert_eq!(row.width, 54);
    assert_eq!(row.month_breaks.len(), 11);
    assert_eq!(
        row.heading,
        vec![
            Month(0), Gap(0), Month(1), Gap(3), Month(3), Gap(0), Month(4), Gap(3), Month(6), Gap(0),
            Month(7), Gap(4), Month(9), Gap(3), Month(11), Year(2023),
        ]
    );
}

#[test]
fn wrapped_rows_hold_a_few_months() {
    let mut summary = DateSummary::new_wrapping(4);
    sample(&mut summary);
    let rows = summary.grid().unwrap();
    assert_eq!(rows[0].heading, vec![Month(0), Gap(0), Month(1), Gap(3), Month(3), Gap(0), Month(4)]);
    assert_eq!(rows[0].month_breaks.len(), 5);
    assert_eq!((rows[0].last_day.month, rows[0].last_day.day), (6, 1));
    assert_eq!((rows[1].first_day.month, rows[1].first_day.day), (6, 2));
    assert_eq!(rows.len(), 3);
    assert_eq!(rows[1].heading, vec![Month(5), Gap(4), Month(7), Gap(4), Month(9)]);
    assert_eq!(rows[2].heading, vec![Month(10), Year(2023)]);
    assert_eq!((rows[2].first_day.month, rows[2].first_day.day), (11, 2));
    let last = rows.last().unwrap();
    assert_eq!((last.last_day.year, last.last_day.month, last.last_day.day), (2022, 12, 31));
    let days: usize = rows.iter().map(|r| r.cells.len()).sum();
    assert_eq!(days, 365);
}

#[test]
fn shades() {
    assert_eq!(shade(0), 0);
    assert_eq!(shade(1), 1);
    assert_eq!(shade(5), 1);
    assert_eq!(shade(6), 2);
    assert_eq!(shade(10), 2);
    assert_eq!(shade(11), 3);
}
